//! WAD decompression, WAD LZ compression and WAD header parsing.

use vstd::prelude::*;
use crate::common::{le_u32, push_range, r_s32, r_u32, signed32, SECTOR_SIZE};
use crate::text::{decimal, push_decimal};
use std::io::Read;
use vstd::string::StringExecFns;
use crate::lz_packets::{
    apply_all, chain_ok, encode_all, is_lz_encoding, lemma_copy_back_match, lemma_lz_encoding_decodes,
    lemma_push, lz_header, packet_bytes, packet_effect, packet_ok, LzPacket,
};
use crate::lz_spec::{
    copy_back, has_wad_magic, little_tail, lz_decode, lz_step, lz_stream_end, spec_decompress_wad_lz, WadError,
};

verus! {

/// Append `size` bytes copied from `dist` bytes behind the end of `dest`
/// (byte by byte, so the copy may overlap what it writes). Fails, leaving
/// `dest` as it was, when `dist` reaches before the start of `dest`.
fn copy_match(dest: &mut Vec<u8>, dist: usize, size: usize) -> (ok: bool)
    requires
        dist >= 1,
    ensures
        ok == (dist <= old(dest)@.len()),
        ok ==> final(dest)@ == copy_back(old(dest)@, old(dest)@.len() - dist, size as nat),
        !ok ==> final(dest)@ == old(dest)@,
{
    if dist > dest.len() {
        return false;
    }
    let lookback = dest.len() - dist;
    let ghost start = old(dest)@;
    let mut i: usize = 0;
    while i < size
        invariant
            dist >= 1,
            lookback + dist == start.len(),
            i <= size,
            dest@.len() == start.len() + i,
            copy_back(start, lookback as int, size as nat) == copy_back(
                dest@,
                lookback + i,
                (size - i) as nat,
            ),
        decreases size - i,
    {
        let n = dest.len();
        assert(lookback + i < n);
        let b = dest[lookback + i];
        dest.push(b);
        i += 1;
    }
    true
}

/// The little literal after a match packet ending at `p`.
fn read_little_tail(data: &[u8], end: usize, p: usize, dest: &mut Vec<u8>) -> (res: Result<
    usize,
    WadError,
>)
    requires
        2 <= p <= end <= data@.len(),
    ensures
        match little_tail(data@, end as int, p as int, old(dest)@) {
            Ok((p2, d2)) => res == Ok::<usize, WadError>(p2 as usize) && final(dest)@ == d2 && p2
                <= end,
            Err(e) => res == Err::<usize, WadError>(e),
        },
{
    let b = data[p - 2];
    let little_literal_size = (b & 3) as usize;
    assert(b & 3 == b % 4) by (bit_vector);
    if little_literal_size > 0 {
        if little_literal_size > end - p {
            return Err(WadError::LittleLiteralOverrun);
        }
        push_range(dest, data, p, p + little_literal_size);
        return Ok(p + little_literal_size);
    }
    Ok(p)
}

/// Decode the packet at `ptr`, appending its bytes to `dest`; returns the next
/// read position (capped at `end`).
#[verifier::rlimit(40)]
fn decode_packet(data: &[u8], end: usize, ptr: usize, dest: &mut Vec<u8>) -> (res: Result<
    usize,
    WadError,
>)
    requires
        16 <= ptr < end <= data@.len(),
    ensures
        match lz_step(data@, end as int, ptr as int, old(dest)@) {
            Ok((p2, d2)) => res matches Ok(q) && final(dest)@ == d2 && ptr < q <= end && p2 > ptr
                && (q == p2 || (q == end && p2 >= end)),
            Err(e) => res == Err::<usize, WadError>(e),
        },
{
    reveal(lz_step);
    let flag_byte = data[ptr];
    let mut p = ptr + 1;
    if flag_byte < 0x10 {
        // Literal packet
        let literal_size: usize = if flag_byte != 0 {
            flag_byte as usize + 3
        } else {
            if p >= end {
                return Err(WadError::LiteralEof);
            }
            let sz = data[p] as usize + 18;
            p += 1;
            sz
        };
        if literal_size > end - p {
            return Err(WadError::LiteralOverrun);
        }
        push_range(dest, data, p, p + literal_size);
        p += literal_size;
        if p < end && data[p] < 0x10 {
            return Err(WadError::DoubleLiteral);
        }
        return Ok(p);
    }
    // Match packet: (distance back from the end of the output, size)
    let (dist, match_size): (usize, usize) = if flag_byte < 0x20 {
        // Far match (0x10-0x1f)
        let mut match_size: usize = (flag_byte & 7) as usize;
        assert(flag_byte & 7 == flag_byte % 8) by (bit_vector);
        if match_size == 0 {
            if p >= end {
                return Err(WadError::FarSizeEof);
            }
            match_size = data[p] as usize + 7;
            p += 1;
        }
        if end - p < 2 {
            return Err(WadError::FarOffsetEof);
        }
        let b0 = data[p];
        let b1 = data[p + 1];
        p += 2;
        let bit3: usize = (flag_byte & 8) as usize;
        assert(flag_byte & 8 == (if (flag_byte / 8) % 2 == 1 {
            8u8
        } else {
            0u8
        })) by (bit_vector);
        assert(b0 >> 2 == b0 / 4) by (bit_vector);
        let x: usize = bit3 * 0x800 + (b1 as usize) * 0x40 + ((b0 >> 2) as usize);
        if x != 0 {
            (x + 0x4000, match_size + 2)
        } else if match_size != 1 {
            // Padding packet: skip to the next 0x1000 boundary of the stream
            let rem = (p - 0x10) % 0x1000;
            if rem == 0 {
                return Ok(p);
            }
            let add = 0x1000 - rem;
            if add >= end - p {
                return Ok(end);
            }
            return Ok(p + add);
        } else {
            (0, 1)
        }
    } else if flag_byte < 0x40 {
        // Medium/big match (0x20-0x3f)
        let mut match_size: usize = (flag_byte & 0x1f) as usize;
        assert(flag_byte & 0x1f == flag_byte % 32) by (bit_vector);
        if match_size == 0 {
            if p >= end {
                return Err(WadError::MediumSizeEof);
            }
            match_size = data[p] as usize + 0x1f;
            p += 1;
        }
        match_size += 2;
        if end - p < 2 {
            return Err(WadError::MediumOffsetEof);
        }
        let b1 = data[p];
        let b2 = data[p + 1];
        p += 2;
        assert(b1 >> 2 == b1 / 4) by (bit_vector);
        ((b2 as usize) * 0x40 + ((b1 >> 2) as usize) + 1, match_size)
    } else {
        // Little match (0x40-0xff)
        if p >= end {
            return Err(WadError::LittleEof);
        }
        let b1 = data[p];
        p += 1;
        assert((flag_byte >> 2) & 7 == (flag_byte / 4) % 8) by (bit_vector);
        assert(flag_byte >> 5 == flag_byte / 32) by (bit_vector);
        ((b1 as usize) * 8 + (((flag_byte >> 2) & 7) as usize) + 1, ((flag_byte >> 5) as usize) + 1)
    };
    if match_size != 1 {
        if !copy_match(dest, dist, match_size) {
            return Err(WadError::MatchOutOfBounds);
        }
    }
    // Little literal appended to the match
    read_little_tail(data, end, p, dest)
}

/// Decompress a WAD LZ block (custom LZ77 format, not zlib).
/// Header (16 bytes): `WAD` magic, the block size (u32 LE, header included),
/// then 9 bytes of tag.
pub fn decompress_wad_lz(data: &[u8]) -> (res: Result<Vec<u8>, WadError>)
    ensures
        match spec_decompress_wad_lz(data@) {
            Ok(out) => res matches Ok(v) && v@ == out,
            Err(e) => res == Err::<Vec<u8>, WadError>(e),
        },
{
    if data.len() < 0x10 {
        return Err(WadError::HeaderTooSmall);
    }
    if !(data[0] == 0x57 && data[1] == 0x41 && data[2] == 0x44) {
        return Err(WadError::BadMagic);
    }
    let compressed_size = r_u32(data, 3) as usize;
    let end = if compressed_size < data.len() {
        compressed_size
    } else {
        data.len()
    };
    let mut ptr: usize = 0x10;
    let mut dest: Vec<u8> = Vec::new();
    if ptr >= end {
        return Ok(dest);
    }
    while ptr < end
        invariant
            16 <= ptr <= end <= data@.len(),
            end == lz_stream_end(data@),
            has_wad_magic(data@),
            lz_decode(data@, end as int, ptr as int, dest@) == lz_decode(
                data@,
                end as int,
                16,
                Seq::empty(),
            ),
        decreases end - ptr,
    {
        let ghost old_dest = dest@;
        let ghost step = lz_step(data@, end as int, ptr as int, old_dest);
        assert(lz_decode(data@, end as int, ptr as int, old_dest) == match step {
            Err(e) => Err(e),
            Ok((p2, d2)) => if p2 > ptr {
                lz_decode(data@, end as int, p2, d2)
            } else {
                Ok(d2)
            },
        });
        match decode_packet(data, end, ptr, &mut dest) {
            Ok(q) => {
                proof {
                    let (p2, d2) = step.unwrap();
                    if q != p2 {
                        assert(lz_decode(data@, end as int, p2, d2) == Ok::<Seq<u8>, WadError>(d2));
                        assert(lz_decode(data@, end as int, q as int, d2) == Ok::<Seq<u8>, WadError>(d2));
                    }
                }
                ptr = q;
            },
            Err(e) => {
                assert(step == Err::<(int, Seq<u8>), WadError>(e));
                return Err(e);
            },
        }
    }
    Ok(dest)
}


// ── WAD LZ Compressor ──────────────────────────────────────────────

/// Largest encodable distance (far match with bit 3 clear).
const WAD_LZ_FAR_MAX_DIST: usize = 0x7FFF;
const WAD_LZ_HASH_SIZE: usize = 32768;
const WAD_LZ_MIN_MATCH: usize = 3;
const WAD_LZ_MAX_MATCH_LITTLE: usize = 7;
const WAD_LZ_MAX_MATCH_MEDIUM: usize = 288;
const WAD_LZ_MAX_MATCH_FAR: usize = 264;
const WAD_LZ_MAX_LITERAL: usize = 273;

/// Compress data into the WAD LZ format (the inverse of [`decompress_wad_lz`]):
/// a 16-byte header followed by literal and back-reference packets.
pub fn compress_wad_lz(data: &[u8]) -> (res: Vec<u8>)
    requires
        data@.len() <= (usize::MAX - 18) / 3,
    ensures
        is_lz_encoding(res@, data@),
        is_greedy_lz_encoding(res@, data@),
        res@.len() <= 16 + 4 * data@.len(),
        res@.len() <= 18 + 3 * data@.len(),
        res@.len() >= 16 && res@[0] == 0x57u8 && res@[1] == 0x41u8 && res@[2] == 0x44u8,
        forall|k: int| 7 <= k < 16 ==> res@[k] == 0u8,
        data@.len() < 0x4000_0000 ==> le_u32(res@, 3) == res@.len(),
        data@.len() < 0x4000_0000 ==> spec_decompress_wad_lz(res@) == Ok::<Seq<u8>, WadError>(
            data@,
        ),
{
    if data.len() == 0 {
        // Empty: just the 16-byte header
        let out = lz_header_bytes(16);
        proof {
            let ps = Seq::<LzPacket>::empty();
            assert(out@ =~= lz_header(16 + encode_all(ps).len() as int) + encode_all(ps));
            assert(apply_all(ps, Seq::empty()) =~= data@);
            assert(greedy_from(ps, data@, Seq::empty()));
        }
        proof {
            lemma_lz_encoding_decodes(out@, data@);
            lemma_header_total(16);
            assert(out@.subrange(0, 16) =~= lz_header(16));
            assert(le_u32(out@, 3) == le_u32(lz_header(16), 3));
        }
        return out;
    }
    let mut stream = CompressStream::new(data);
    stream.compress();
    let ghost ps = stream.packets@;
    let res = stream.finalize();
    proof {
        assert(apply_all(ps, Seq::empty()) =~= data@);
        assert(is_lz_encoding(res@, data@));
        assert(greedy_from(ps, data@, Seq::empty()));
        assert(is_greedy_lz_encoding(res@, data@));
        if data@.len() < 0x4000_0000 {
            lemma_lz_encoding_decodes(res@, data@);
            let t = res@.len() as int;
            lemma_header_total(t);
            let hd = lz_header(t);
            assert(res@[3] == hd[3] && res@[4] == hd[4] && res@[5] == hd[5] && res@[6] == hd[6]);
        }
    }
    res
}

/// The size field of a header for a block below 4 GiB is the block's size.
proof fn lemma_header_total(t: int)
    requires
        0 <= t < 0x1_0000_0000,
    ensures
        le_u32(lz_header(t), 3) == t,
{
    let h = lz_header(t);
    let b0 = t % 0x100;
    let b1 = (t / 0x100) % 0x100;
    let b2 = (t / 0x1_0000) % 0x100;
    let b3 = (t / 0x100_0000) % 0x100;
    assert(h[3] as int == b0 && h[4] as int == b1 && h[5] as int == b2 && h[6] as int == b3);
    assert(b0 + b1 * 0x100 + b2 * 0x1_0000 + b3 * 0x100_0000 == t) by (nonlinear_arith)
        requires
            0 <= t < 0x1_0000_0000,
            b0 == t % 0x100,
            b1 == (t / 0x100) % 0x100,
            b2 == (t / 0x1_0000) % 0x100,
            b3 == (t / 0x100_0000) % 0x100,
    ;
}

/// The 16-byte WAD LZ header for a block of `total_size` bytes.
fn lz_header_bytes(total_size: usize) -> (header: Vec<u8>)
    ensures
        header@ == lz_header(total_size as int),
{
    let t = total_size as u32;
    let mut header: Vec<u8> = Vec::new();
    header.push(0x57);
    header.push(0x41);
    header.push(0x44);
    let b0 = (t & 0xFF) as u8;
    let b1 = ((t >> 8) & 0xFF) as u8;
    let b2 = ((t >> 16) & 0xFF) as u8;
    let b3 = ((t >> 24) & 0xFF) as u8;
    assert(t & 0xFF == total_size % 0x100 && (t >> 8) & 0xFF == (total_size / 0x100) % 0x100 && (t
        >> 16) & 0xFF == (total_size / 0x1_0000) % 0x100 && (t >> 24) & 0xFF == (total_size
        / 0x100_0000) % 0x100) by (bit_vector)
        requires
            t == total_size as u32,
    ;
    header.push(b0);
    header.push(b1);
    header.push(b2);
    header.push(b3);
    let mut i: usize = 0;
    while i < 9
        invariant
            0 <= i <= 9,
            header@.len() == 7 + i,
            header@[0] == 0x57u8,
            header@[1] == 0x41u8,
            header@[2] == 0x44u8,
            header@[3] as int == total_size as int % 0x100,
            header@[4] as int == (total_size as int / 0x100) % 0x100,
            header@[5] as int == (total_size as int / 0x1_0000) % 0x100,
            header@[6] as int == (total_size as int / 0x100_0000) % 0x100,
            forall|k: int| 7 <= k < header@.len() ==> header@[k] == 0u8,
        decreases 9 - i,
    {
        header.push(0);
        i += 1;
    }
    assert(header@ =~= lz_header(total_size as int));
    header
}

/// The 15-bit hash of the three bytes at `pos` (0 where fewer than three
/// bytes are left).
spec fn lz_hash3(s: Seq<u8>, pos: int) -> usize {
    if 0 <= pos && pos + 2 < s.len() {
        let a = s[pos] as usize;
        let b = s[pos + 1] as usize;
        let c = s[pos + 2] as usize;
        ((a << 10) ^ (b << 5) ^ c) & 0x7FFFusize
    } else {
        0
    }
}

/// Length of the run of equal bytes at `c` and `p`, counted from `len`,
/// at most `max` and stopping at the end of the data.
spec fn match_run(s: Seq<u8>, c: int, p: int, max: int, len: int) -> int
    decreases max - len,
{
    if len < max && c + len < s.len() && s[c + len] == s[p + len] {
        match_run(s, c, p, max, len + 1)
    } else {
        len
    }
}

/// The longest match (length, distance) found walking the hash chain from
/// `cand`: at most 128 candidates, none farther than `max_dist`, the first
/// of equal lengths kept, stopping at a match of 64 bytes or more.
spec fn chain_walk(
    s: Seq<u8>,
    chain: Seq<Option<usize>>,
    p: int,
    cand: Option<usize>,
    count: int,
    best_len: int,
    best_dist: int,
    max_dist: int,
    max_len: int,
) -> (int, int)
    decreases 128 - count,
{
    match cand {
        None => (best_len, best_dist),
        Some(c) => {
            if count >= 128 {
                (best_len, best_dist)
            } else if p - c > max_dist {
                (best_len, best_dist)
            } else {
                let len = match_run(s, c as int, p, max_len, 0);
                if len > best_len {
                    if len >= 64 {
                        (len, p - c)
                    } else {
                        chain_walk(s, chain, p, chain[c as int], count + 1, len, p - c, max_dist, max_len)
                    }
                } else {
                    chain_walk(s, chain, p, chain[c as int], count + 1, best_len, best_dist, max_dist, max_len)
                }
            }
        },
    }
}

/// The match chosen at `p`: (distance, length), or (0, 0) for none.
spec fn best_match(s: Seq<u8>, ht: Seq<Option<usize>>, chain: Seq<Option<usize>>, p: int) -> (int, int) {
    let max_dist = if p < WAD_LZ_FAR_MAX_DIST {
        p
    } else {
        WAD_LZ_FAR_MAX_DIST as int
    };
    if max_dist < WAD_LZ_MIN_MATCH || s.len() - p <= 2 {
        (0, 0)
    } else {
        let max_len = if s.len() - p < WAD_LZ_MAX_MATCH_MEDIUM {
            s.len() - p
        } else {
            WAD_LZ_MAX_MATCH_MEDIUM as int
        };
        let b = chain_walk(s, chain, p, ht[lz_hash3(s, p) as int], 0, 0, 0, max_dist, max_len);
        if b.0 >= WAD_LZ_MIN_MATCH {
            let len = if b.0 < WAD_LZ_MAX_MATCH_MEDIUM {
                b.0
            } else {
                WAD_LZ_MAX_MATCH_MEDIUM as int
            };
            if b.1 <= WAD_LZ_FAR_MAX_DIST {
                (b.1, len)
            } else {
                (0, 0)
            }
        } else {
            (0, 0)
        }
    }
}

/// The hash tables after inserting positions `0..p` of `s` in order: each
/// position with three bytes left becomes the head of its hash's chain.
spec fn tables_at(s: Seq<u8>, p: nat) -> (Seq<Option<usize>>, Seq<Option<usize>>)
    decreases p,
{
    if p == 0 {
        (Seq::new(WAD_LZ_HASH_SIZE as nat, |i: int| None::<usize>), Seq::new(s.len(), |i: int| None::<usize>))
    } else {
        let t = tables_at(s, (p - 1) as nat);
        let q = p - 1;
        if q + 2 < s.len() {
            let h = lz_hash3(s, q) as int;
            (t.0.update(h, Some(q as usize)), t.1.update(q, t.0[h]))
        } else {
            t
        }
    }
}

/// The back reference (distance, length) the compressor's hash-chain
/// matcher finds at position `p` of `s`, with every earlier position in its
/// tables; length 0 when it finds none.
#[verifier::opaque]
pub closed spec fn greedy_choice(s: Seq<u8>, p: int) -> (int, int) {
    let t = tables_at(s, p as nat);
    best_match(s, t.0, t.1, p)
}

/// Bytes a match of `l` bytes `d` back takes: far matches (over 0x4000
/// back) are cut to 264 bytes.
pub open spec fn emit_len(d: int, l: int) -> int {
    if d > 0x4000 && l > 264 {
        264
    } else {
        l
    }
}

/// The matcher finds no match at any position of `a..b`.
pub open spec fn no_match_in(s: Seq<u8>, a: int, b: int) -> bool {
    forall|k: int| a <= k < b ==> #[trigger] greedy_choice(s, k).1 < 3
}

/// Packet `pk`, decoded at position `q` of `s`, is what the greedy parse
/// puts there: literal bytes only where the matcher finds no match, and a
/// back reference exactly where it finds one, with its distance and length
/// (cut as [`emit_len`] says).
pub open spec fn packet_greedy(pk: LzPacket, s: Seq<u8>, q: int) -> bool {
    match pk {
        LzPacket::Literal(b) => no_match_in(s, q, q + b.len()),
        LzPacket::Pad(b) => no_match_in(s, q, q + b.len()),
        LzPacket::Little { dist, len } => greedy_choice(s, q).1 >= 3 && dist == greedy_choice(s, q).0
            && len == emit_len(dist, greedy_choice(s, q).1),
        LzPacket::Medium { dist, len } => greedy_choice(s, q).1 >= 3 && dist == greedy_choice(s, q).0
            && len == emit_len(dist, greedy_choice(s, q).1),
        LzPacket::Far { dist, len } => greedy_choice(s, q).1 >= 3 && dist == greedy_choice(s, q).0
            && len == emit_len(dist, greedy_choice(s, q).1),
    }
}

/// Every packet of `ps`, decoded after `dest`, follows the greedy parse of `s`.
pub open spec fn greedy_from(ps: Seq<LzPacket>, s: Seq<u8>, dest: Seq<u8>) -> bool
    decreases ps.len(),
{
    ps.len() == 0 || {
        &&& packet_greedy(ps[0], s, dest.len() as int)
        &&& greedy_from(ps.drop_first(), s, packet_effect(ps[0], dest))
    }
}

/// `out` is a WAD LZ encoding of `input` whose packets follow the greedy
/// parse: a back reference wherever the hash-chain matcher finds one,
/// literal bytes elsewhere.
pub open spec fn is_greedy_lz_encoding(out: Seq<u8>, input: Seq<u8>) -> bool {
    exists|ps: Seq<LzPacket>|
        {
            &&& out == lz_header(16 + encode_all(ps).len() as int) + encode_all(ps)
            &&& chain_ok(ps, Seq::empty())
            &&& apply_all(ps, Seq::empty()) == input
            &&& greedy_from(ps, input, Seq::empty())
        }
}

/// A part of a stretch without matches has none.
proof fn lemma_no_match_sub(s: Seq<u8>, a: int, b: int, c: int, d: int)
    requires
        no_match_in(s, a, b),
        a <= c,
        d <= b,
    ensures
        no_match_in(s, c, d),
{
    assert forall|k: int| c <= k < d implies #[trigger] greedy_choice(s, k).1 < 3 by {
        assert(a <= k < b);
    }
}

/// Appending a packet that follows the greedy parse where it lands.
proof fn lemma_greedy_push(ps: Seq<LzPacket>, p: LzPacket, s: Seq<u8>, dest: Seq<u8>)
    requires
        greedy_from(ps, s, dest),
        packet_greedy(p, s, apply_all(ps, dest).len() as int),
    ensures
        greedy_from(ps.push(p), s, dest),
    decreases ps.len(),
{
    if ps.len() == 0 {
        assert(apply_all(ps, dest) == dest);
        assert(ps.push(p).drop_first() =~= Seq::<LzPacket>::empty());
        assert(ps.push(p)[0] == p);
        assert(greedy_from(ps.push(p).drop_first(), s, packet_effect(p, dest)));
    } else {
        lemma_greedy_push(ps.drop_first(), p, s, packet_effect(ps[0], dest));
        assert(ps.push(p).drop_first() =~= ps.drop_first().push(p));
        assert(ps.push(p)[0] == ps[0]);
    }
}

/// A candidate back reference.
struct Match {
    distance: usize,
    length: usize,
}

/// `p` is a back reference of `l` bytes, `d` bytes back.
spec fn is_match(p: LzPacket, d: int, l: int) -> bool {
    match p {
        LzPacket::Little { dist, len } => dist == d && len == l,
        LzPacket::Medium { dist, len } => dist == d && len == l,
        LzPacket::Far { dist, len } => dist == d && len == l,
        _ => false,
    }
}

/// Compressor state: the input, the packets emitted so far, the literal bytes
/// not yet emitted, and hash chains over 3-byte prefixes of earlier positions.
struct CompressStream<'a> {
    input: &'a [u8],
    output: Vec<u8>,
    /// current position in input
    pos: usize,
    /// hash → most recent position with that hash
    hash_table: Vec<Option<usize>>,
    /// position → previous position with the same hash
    chain_table: Vec<Option<usize>>,
    /// accumulated literal bytes
    pending_literals: Vec<u8>,
    /// start position in input of the pending literals
    pending_literal_start: usize,
    /// true if the last emitted packet was a literal
    last_was_literal: bool,
    /// the packets that `output` encodes
    packets: Ghost<Seq<LzPacket>>,
}

impl<'a> CompressStream<'a> {
    /// Input bytes already covered by emitted packets.
    spec fn emitted(&self) -> int {
        self.pos - self.pending_literals@.len()
    }

    /// Hash tables have their sizes and only name positions below `bound`.
    spec fn tables_below(&self, bound: int) -> bool {
        &&& self.hash_table@.len() == WAD_LZ_HASH_SIZE
        &&& self.chain_table@.len() == self.input@.len()
        &&& forall|i: int|
            0 <= i < self.hash_table@.len() ==> (#[trigger] self.hash_table@[i] matches Some(
                q,
            ) ==> q < bound)
        &&& forall|i: int|
            0 <= i < self.chain_table@.len() ==> (#[trigger] self.chain_table@[i] matches Some(
                q,
            ) ==> q < bound)
    }

    /// `output` encodes a well-formed packet sequence.
    spec fn stream_ok(&self) -> bool {
        &&& self.output@ == encode_all(self.packets@)
        &&& chain_ok(self.packets@, Seq::empty())
        &&& (self.packets@.len() > 0 && self.packets@.last() is Literal ==> self.last_was_literal)
    }

    /// Everything the compressor keeps true between steps.
    spec fn wf(&self) -> bool {
        &&& self.pos <= self.input@.len()
        &&& self.pending_literals@.len() <= self.pos
        &&& self.pending_literals@ == self.input@.subrange(self.emitted(), self.pos as int)
        &&& self.stream_ok()
        &&& apply_all(self.packets@, Seq::empty()) == self.input@.subrange(0, self.emitted())
        &&& self.output@.len() <= 4 * self.emitted()
        &&& self.tables_below(self.pos as int)
        &&& greedy_from(self.packets@, self.input@, Seq::empty())
        &&& no_match_in(self.input@, self.emitted(), self.pos as int)
    }

    /// Fields an emitting step leaves alone.
    spec fn same_source(&self, other: &Self) -> bool {
        &&& self.input@ == other.input@
        &&& self.pos == other.pos
        &&& self.hash_table@ == other.hash_table@
        &&& self.chain_table@ == other.chain_table@
        &&& self.pending_literals@ == other.pending_literals@
    }

    fn new(input: &'a [u8]) -> (s: Self)
        ensures
            s.wf(),
            s.input@ == input@,
            s.pos == 0,
            s.packets@.len() == 0,
            (s.hash_table@, s.chain_table@) == tables_at(input@, 0),
    {
        let len = input.len();
        let mut hash_table: Vec<Option<usize>> = Vec::new();
        let mut i: usize = 0;
        while i < WAD_LZ_HASH_SIZE
            invariant
                i <= WAD_LZ_HASH_SIZE,
                hash_table@.len() == i,
                forall|k: int| 0 <= k < i ==> #[trigger] hash_table@[k] == None::<usize>,
            decreases WAD_LZ_HASH_SIZE - i,
        {
            hash_table.push(None);
            i += 1;
        }
        let mut chain_table: Vec<Option<usize>> = Vec::new();
        let mut j: usize = 0;
        while j < len
            invariant
                j <= len,
                len == input@.len(),
                chain_table@.len() == j,
                forall|k: int| 0 <= k < j ==> #[trigger] chain_table@[k] == None::<usize>,
            decreases len - j,
        {
            chain_table.push(None);
            j += 1;
        }
        let s = CompressStream {
            input,
            output: Vec::with_capacity(len / 2),
            pos: 0,
            hash_table,
            chain_table,
            pending_literals: Vec::new(),
            pending_literal_start: 0,
            last_was_literal: false,
            packets: Ghost(Seq::empty()),
        };
        assert(s.pending_literals@ =~= s.input@.subrange(0, 0));
        assert(apply_all(s.packets@, Seq::empty()) =~= s.input@.subrange(0, 0));
        assert(s.hash_table@ =~= tables_at(input@, 0).0);
        assert(s.chain_table@ =~= tables_at(input@, 0).1);
        s
    }

    fn compress(&mut self)
        requires
            old(self).wf(),
            old(self).pos == 0,
            (old(self).hash_table@, old(self).chain_table@) == tables_at(old(self).input@, 0),
        ensures
            final(self).wf(),
            final(self).input@ == old(self).input@,
            final(self).pos == final(self).input@.len(),
            final(self).pending_literals@.len() == 0,
            old(self).output@.len() == 0 ==> final(self).output@.len() <= 3 * final(self).input@.len() + 2,
    {
        let ghost start_empty = self.output@.len() == 0;
        // Positions where a 3-byte hash can be formed
        while self.pos < self.input.len() && self.input.len() - self.pos > 2
            invariant
                self.wf(),
                self.input@ == old(self).input@,
                (self.hash_table@, self.chain_table@) == tables_at(self.input@, self.pos as nat),
                start_empty == (old(self).output@.len() == 0),
                start_empty ==> self.output@.len() <= 3 * self.emitted() + 1,
            decreases self.input@.len() - self.pos,
        {
            // Look for the best match at the current position
            let best = self.find_best_match();
            proof {
                reveal(greedy_choice);
                assert(greedy_choice(self.input@, self.pos as int) == (best.distance as int, best.length as int));
            }
            if best.length >= WAD_LZ_MIN_MATCH {
                // Flush pending literals first
                self.flush_literals();
                // Emit match packet — returns actual bytes consumed
                let ghost before = *self;
                let emit_len = self.emit_match(best.distance, best.length);
                let ghost after_emit = *self;
                proof {
                    let p = self.packets@.last();
                    let pos = self.pos as int;
                    let n = emit_len as int;
                    let prefix = self.input@.subrange(0, pos);
                    lemma_copy_back_match(self.input@, pos, best.distance as int, emit_len as nat);
                    assert(packet_effect(p, prefix) == self.input@.subrange(0, pos + n));
                    lemma_push(before.packets@, p, Seq::empty());
                    assert(apply_all(before.packets@, Seq::empty()).len() == pos);
                    assert(packet_greedy(p, self.input@, pos));
                    lemma_greedy_push(before.packets@, p, self.input@, Seq::empty());
                }
                // Insert the covered positions into the hash chains
                let end_off = self.pos + emit_len;
                let mut off = self.pos;
                while off < end_off
                    invariant
                        after_emit.pos <= off <= end_off,
                        end_off == after_emit.pos + emit_len,
                        end_off <= self.input@.len(),
                        self.tables_below(end_off as int),
                        self.input@ == after_emit.input@,
                        self.output@ == after_emit.output@,
                        self.pos == after_emit.pos,
                        self.pending_literals@ == after_emit.pending_literals@,
                        self.packets@ == after_emit.packets@,
                        self.last_was_literal == after_emit.last_was_literal,
                        (self.hash_table@, self.chain_table@) == tables_at(self.input@, off as nat),
                    decreases end_off - off,
                {
                    self.insert_hash(off, Ghost(end_off as int));
                    off += 1;
                }
                self.pos = end_off;
                proof {
                    assert(self.pending_literals@ =~= self.input@.subrange(
                        self.pos as int,
                        self.pos as int,
                    ));
                }
            } else {
                // Accumulate literal
                let b = self.input[self.pos];
                self.pending_literals.push(b);
                self.insert_hash(self.pos, Ghost(self.pos + 1));
                self.pos += 1;
                assert(no_match_in(self.input@, self.emitted(), self.pos as int));
                assert(self.pending_literals@ =~= self.input@.subrange(self.emitted(), self.pos as int));
                // Flush literals if we've accumulated a lot
                if self.pending_literals.len() >= WAD_LZ_MAX_LITERAL {
                    self.flush_literals_raw();
                }
            }
        }
        // Flush remaining bytes as literals
        while self.pos < self.input.len()
            invariant
                self.wf(),
                self.input@ == old(self).input@,
                self.input@.len() - self.pos <= 2,
                start_empty == (old(self).output@.len() == 0),
                start_empty ==> self.output@.len() <= 3 * self.emitted() + 1,
            decreases self.input@.len() - self.pos,
        {
            proof {
                reveal(greedy_choice);
                assert(greedy_choice(self.input@, self.pos as int).1 == 0);
            }
            let b = self.input[self.pos];
            self.pending_literals.push(b);
            self.pos += 1;
            assert(self.pending_literals@ =~= self.input@.subrange(self.emitted(), self.pos as int));
            assert(no_match_in(self.input@, self.emitted(), self.pos as int));
        }
        self.flush_literals_raw();
    }

    fn hash3(&self, pos: usize) -> (h: usize)
        ensures
            h < WAD_LZ_HASH_SIZE,
            h == lz_hash3(self.input@, pos as int),
    {
        if pos < self.input.len() && self.input.len() - pos > 2 {
            let a = self.input[pos] as usize;
            let b = self.input[pos + 1] as usize;
            let c = self.input[pos + 2] as usize;
            let h = ((a << 10) ^ (b << 5) ^ c) & (WAD_LZ_HASH_SIZE - 1);
            assert(((a << 10) ^ (b << 5) ^ c) & 0x7FFF < 0x8000) by (bit_vector);
            h
        } else {
            0
        }
    }

    /// Record `pos` as the latest position with its hash (`bound` is a
    /// strict upper bound on every recorded position).
    fn insert_hash(&mut self, pos: usize, Ghost(bound): Ghost<int>)
        requires
            old(self).tables_below(bound),
            pos < bound,
        ensures
            final(self).tables_below(bound),
            final(self).input@ == old(self).input@,
            final(self).output@ == old(self).output@,
            final(self).pos == old(self).pos,
            final(self).pending_literals@ == old(self).pending_literals@,
            final(self).packets@ == old(self).packets@,
            final(self).last_was_literal == old(self).last_was_literal,
            final(self).hash_table@ == if pos + 2 < old(self).input@.len() {
                old(self).hash_table@.update(lz_hash3(old(self).input@, pos as int) as int, Some(pos))
            } else {
                old(self).hash_table@
            },
            final(self).chain_table@ == if pos + 2 < old(self).input@.len() {
                old(self).chain_table@.update(
                    pos as int,
                    old(self).hash_table@[lz_hash3(old(self).input@, pos as int) as int],
                )
            } else {
                old(self).chain_table@
            },
    {
        if pos >= self.input.len() || self.input.len() - pos <= 2 {
            return;
        }
        let h = self.hash3(pos);
        let prev = self.hash_table[h];
        self.chain_table[pos] = prev;
        self.hash_table[h] = Some(pos);
    }

    fn find_best_match(&self) -> (m: Match)
        requires
            self.tables_below(self.pos as int),
            self.pos <= self.input@.len(),
        ensures
            (m.distance as int, m.length as int) == best_match(
                self.input@,
                self.hash_table@,
                self.chain_table@,
                self.pos as int,
            ),
            m.length == 0 || {
                &&& WAD_LZ_MIN_MATCH <= m.length <= WAD_LZ_MAX_MATCH_MEDIUM
                &&& self.pos + m.length <= self.input@.len()
                &&& 1 <= m.distance <= self.pos
                &&& m.distance <= WAD_LZ_FAR_MAX_DIST
                &&& forall|j: int|
                    self.pos <= j < self.pos + m.length ==> self.input@[j - m.distance]
                        == #[trigger] self.input@[j]
            },
    {
        // Cap max_dist to the largest encodable distance
        let max_dist = if self.pos < WAD_LZ_FAR_MAX_DIST {
            self.pos
        } else {
            WAD_LZ_FAR_MAX_DIST
        };
        if max_dist < WAD_LZ_MIN_MATCH || self.input.len() - self.pos <= 2 {
            return Match { distance: 0, length: 0 };
        }
        let h = self.hash3(self.pos);
        let mut best_len = 0usize;
        let mut best_dist = 0usize;
        let remaining = self.input.len() - self.pos;
        let max_len = if remaining < WAD_LZ_MAX_MATCH_MEDIUM {
            remaining
        } else {
            WAD_LZ_MAX_MATCH_MEDIUM
        };
        let max_chain: usize = 128;
        let mut chain_count = 0usize;
        let mut candidate = self.hash_table[h];
        let ghost walk = chain_walk(
            self.input@,
            self.chain_table@,
            self.pos as int,
            candidate,
            0,
            0,
            0,
            max_dist as int,
            max_len as int,
        );
        loop
            invariant_except_break
                walk == chain_walk(
                    self.input@,
                    self.chain_table@,
                    self.pos as int,
                    candidate,
                    chain_count as int,
                    best_len as int,
                    best_dist as int,
                    max_dist as int,
                    max_len as int,
                ),
            invariant
                self.tables_below(self.pos as int),
                self.pos + max_len <= self.input@.len(),
                max_len <= WAD_LZ_MAX_MATCH_MEDIUM,
                max_dist <= self.pos,
                max_dist <= WAD_LZ_FAR_MAX_DIST,
                chain_count <= max_chain,
                max_chain == 128,
                candidate matches Some(c) ==> c < self.pos,
                best_len <= max_len,
                best_len > 0 ==> 1 <= best_dist <= max_dist,
                forall|j: int|
                    self.pos <= j < self.pos + best_len ==> self.input@[j - best_dist]
                        == #[trigger] self.input@[j],
            ensures
                walk == (best_len as int, best_dist as int),
            decreases max_chain - chain_count,
        {
            let cand_pos = match candidate {
                Some(c) => c,
                None => break,
            };
            if chain_count >= max_chain {
                break;
            }
            let ghost count0 = chain_count as int;
            chain_count += 1;
            let dist = self.pos - cand_pos;
            if dist > max_dist {
                break;
            }
            let max_check = max_len;
            let input_len = self.input.len();
            let mut len = 0usize;
            while len < max_check && cand_pos + len < input_len && self.input[cand_pos
                + len] == self.input[self.pos + len]
                invariant
                    len <= max_check,
                    max_check == max_len,
                    self.pos + max_len <= self.input@.len(),
                    cand_pos < self.pos,
                    cand_pos + max_len <= self.input@.len(),
                    input_len == self.input@.len(),
                    dist == self.pos - cand_pos,
                    forall|j: int|
                        self.pos <= j < self.pos + len ==> self.input@[j - dist]
                            == #[trigger] self.input@[j],
                    match_run(self.input@, cand_pos as int, self.pos as int, max_len as int, 0)
                        == match_run(self.input@, cand_pos as int, self.pos as int, max_len as int, len as int),
                decreases max_check - len,
            {
                len += 1;
            }
            assert(len == match_run(self.input@, cand_pos as int, self.pos as int, max_len as int, 0));
            if len > best_len {
                best_len = len;
                best_dist = dist;
                if len >= 64 {
                    break;  // good enough
                }
            }
            candidate = self.chain_table[cand_pos];
        }
        if best_len >= WAD_LZ_MIN_MATCH {
            let len = if best_len < WAD_LZ_MAX_MATCH_MEDIUM {
                best_len
            } else {
                WAD_LZ_MAX_MATCH_MEDIUM
            };
            // Ensure distance is encodable (fallback to literal otherwise)
            if best_dist <= WAD_LZ_FAR_MAX_DIST {
                Match { distance: best_dist, length: len }
            } else {
                Match { distance: 0, length: 0 }
            }
        } else {
            Match { distance: 0, length: 0 }
        }
    }

    /// Move the pending literal bytes into the stream: literal packets of at
    /// most 273 bytes (separated by padding packets so no literal follows a
    /// literal), and a final 1-3 bytes as the little literal of a padding packet.
    fn flush_literals(&mut self)
        requires
            old(self).wf(),
        ensures
            final(self).wf(),
            final(self).same_source_but_pending(&*old(self)),
            final(self).pending_literals@.len() == 0,
            final(self).output@.len() <= old(self).output@.len() + 3 * old(self).pending_literals@.len() + 1,
            old(self).pending_literals@.len() != 1 ==> final(self).output@.len() <= old(self).output@.len()
                + 3 * old(self).pending_literals@.len(),
    {
        if self.pending_literals.is_empty() {
            return;
        }
        let mut lit: Vec<u8> = Vec::new();
        std::mem::swap(&mut lit, &mut self.pending_literals);
        let ghost e0 = self.pos - lit@.len();
        let mut i: usize = 0;
        let mut first = true;
        while i < lit.len()
            invariant_except_break
                i <= lit@.len(),
                apply_all(self.packets@, Seq::empty()) == self.input@.subrange(0, e0 + i),
                self.output@.len() <= 4 * (e0 + i),
                i == 0 ==> self.output@.len() == old(self).output@.len(),
                i > 0 ==> self.output@.len() + 3 <= old(self).output@.len() + 3 * i,
            invariant
                self.same_source_but_pending(&*old(self)),
                self.pending_literals@.len() == 0,
                greedy_from(self.packets@, self.input@, Seq::empty()),
                no_match_in(self.input@, e0, self.pos as int),
                lit@ == self.input@.subrange(e0, self.pos as int),
                lit@.len() == old(self).pending_literals@.len(),
                e0 + lit@.len() == self.pos,
                0 <= e0,
                self.stream_ok(),
                self.tables_below(self.pos as int),
                self.pos <= self.input@.len(),
                self.output@.len() <= old(self).output@.len() + 3 * lit@.len() + 1,
                lit@.len() != 1 ==> self.output@.len() <= old(self).output@.len() + 3 * lit@.len(),
            ensures
                apply_all(self.packets@, Seq::empty()) == self.input@.subrange(0, self.pos as int),
                self.output@.len() <= 4 * self.pos,
            decreases lit@.len() - i,
        {
            let remaining = lit.len() - i;
            if remaining >= 4 {
                let emit_len = if remaining < WAD_LZ_MAX_LITERAL {
                    remaining
                } else {
                    WAD_LZ_MAX_LITERAL
                };
                if !first || self.last_was_literal {
                    let ghost before_pad = *self;
                    assert(Seq::<u8>::empty() =~= self.input@.subrange(e0 + i, e0 + i));
                    self.emit_padding_match();
                    proof {
                        Self::lemma_append_bytes(
                            before_pad.packets@,
                            LzPacket::Pad(Seq::empty()),
                            self.input@,
                            e0 + i,
                            Seq::empty(),
                        );
                        assert(no_match_in(self.input@, e0 + i, e0 + i + 0));
                        lemma_greedy_push(before_pad.packets@, LzPacket::Pad(Seq::empty()), self.input@, Seq::empty());
                        assert(self.input@.subrange(0, e0 + i) + Seq::<u8>::empty() =~= self.input@.subrange(0, e0 + i));
                    }
                }
                let ghost before = *self;
                let chunk = slice_range(lit.as_slice(), i, i + emit_len);
                assert(chunk@ =~= self.input@.subrange(e0 + i, e0 + i + emit_len));
                self.emit_literal(chunk);
                proof {
                    Self::lemma_append_bytes(
                        before.packets@,
                        LzPacket::Literal(chunk@),
                        self.input@,
                        e0 + i,
                        chunk@,
                    );
                    lemma_no_match_sub(self.input@, e0, self.pos as int, e0 + i, e0 + i + chunk@.len());
                    lemma_greedy_push(before.packets@, LzPacket::Literal(chunk@), self.input@, Seq::empty());
                }
                i += emit_len;
                first = false;
            } else {
                // 1-3 remaining bytes: too few for a literal packet, so they
                // become the little literal of a padding packet.
                let ghost before = *self;
                let chunk = slice_range(lit.as_slice(), i, lit.len());
                assert(chunk@ =~= self.input@.subrange(e0 + i, e0 + i + remaining));
                self.emit_padding_with_little_literal(chunk);
                proof {
                    Self::lemma_append_bytes(
                        before.packets@,
                        LzPacket::Pad(chunk@),
                        self.input@,
                        e0 + i,
                        chunk@,
                    );
                    lemma_no_match_sub(self.input@, e0, self.pos as int, e0 + i, e0 + i + chunk@.len());
                    lemma_greedy_push(before.packets@, LzPacket::Pad(chunk@), self.input@, Seq::empty());
                }
                break;
            }
        }
        self.pending_literal_start = self.pos;
        assert(self.pending_literals@ =~= self.input@.subrange(self.pos as int, self.pos as int));
    }

    /// Like [`Self::flush_literals`], used when the literal run is long or at the
    /// end of the input.
    fn flush_literals_raw(&mut self)
        requires
            old(self).wf(),
        ensures
            final(self).wf(),
            final(self).same_source_but_pending(&*old(self)),
            final(self).pending_literals@.len() == 0,
            final(self).output@.len() <= old(self).output@.len() + 3 * old(self).pending_literals@.len() + 1,
            old(self).pending_literals@.len() != 1 ==> final(self).output@.len() <= old(self).output@.len()
                + 3 * old(self).pending_literals@.len(),
    {
        if self.pending_literals.is_empty() {
            return;
        }
        let mut lit: Vec<u8> = Vec::new();
        std::mem::swap(&mut lit, &mut self.pending_literals);
        let ghost e0 = self.pos - lit@.len();
        let mut i: usize = 0;
        let mut first = true;
        while i < lit.len()
            invariant
                i <= lit@.len(),
                lit@.len() == old(self).pending_literals@.len(),
                i == 0 ==> self.output@.len() == old(self).output@.len(),
                i > 0 && i < lit@.len() ==> self.output@.len() + 3 <= old(self).output@.len() + 3 * i,
                i == lit@.len() && i > 0 ==> self.output@.len() <= old(self).output@.len() + 3 * i + 1,
                i == lit@.len() && i != 1 ==> self.output@.len() <= old(self).output@.len() + 3 * i,
                self.same_source_but_pending(&*old(self)),
                self.pending_literals@.len() == 0,
                greedy_from(self.packets@, self.input@, Seq::empty()),
                no_match_in(self.input@, e0, self.pos as int),
                lit@ == self.input@.subrange(e0, self.pos as int),
                e0 + lit@.len() == self.pos,
                0 <= e0,
                self.stream_ok(),
                apply_all(self.packets@, Seq::empty()) == self.input@.subrange(0, e0 + i),
                self.output@.len() <= 4 * (e0 + i),
                self.tables_below(self.pos as int),
                self.pos <= self.input@.len(),
            decreases lit@.len() - i,
        {
            let remaining = lit.len() - i;
            if remaining >= 4 {
                let emit_len = if remaining < WAD_LZ_MAX_LITERAL {
                    remaining
                } else {
                    WAD_LZ_MAX_LITERAL
                };
                if !first || self.last_was_literal {
                    // Insert padding match to avoid "Double literal"
                    let ghost before_pad = *self;
                    assert(Seq::<u8>::empty() =~= self.input@.subrange(e0 + i, e0 + i));
                    self.emit_padding_match();
                    proof {
                        Self::lemma_append_bytes(
                            before_pad.packets@,
                            LzPacket::Pad(Seq::empty()),
                            self.input@,
                            e0 + i,
                            Seq::empty(),
                        );
                        assert(no_match_in(self.input@, e0 + i, e0 + i + 0));
                        lemma_greedy_push(before_pad.packets@, LzPacket::Pad(Seq::empty()), self.input@, Seq::empty());
                        assert(self.input@.subrange(0, e0 + i) + Seq::<u8>::empty() =~= self.input@.subrange(0, e0 + i));
                    }
                }
                let ghost before = *self;
                let chunk = slice_range(lit.as_slice(), i, i + emit_len);
                assert(chunk@ =~= self.input@.subrange(e0 + i, e0 + i + emit_len));
                self.emit_literal(chunk);
                proof {
                    Self::lemma_append_bytes(
                        before.packets@,
                        LzPacket::Literal(chunk@),
                        self.input@,
                        e0 + i,
                        chunk@,
                    );
                    lemma_no_match_sub(self.input@, e0, self.pos as int, e0 + i, e0 + i + chunk@.len());
                    lemma_greedy_push(before.packets@, LzPacket::Literal(chunk@), self.input@, Seq::empty());
                }
                i += emit_len;
                first = false;
            } else {
                // 1-3 straggler bytes at end: use padding match + little literal
                let ghost before = *self;
                let chunk = slice_range(lit.as_slice(), i, lit.len());
                assert(chunk@ =~= self.input@.subrange(e0 + i, e0 + i + remaining));
                self.emit_padding_with_little_literal(chunk);
                proof {
                    Self::lemma_append_bytes(
                        before.packets@,
                        LzPacket::Pad(chunk@),
                        self.input@,
                        e0 + i,
                        chunk@,
                    );
                    lemma_no_match_sub(self.input@, e0, self.pos as int, e0 + i, e0 + i + chunk@.len());
                    lemma_greedy_push(before.packets@, LzPacket::Pad(chunk@), self.input@, Seq::empty());
                }
                i += remaining;
            }
        }
        self.pending_literal_start = self.pos;
        assert(self.pending_literals@ =~= self.input@.subrange(self.pos as int, self.pos as int));
    }

    /// Fields a flush leaves alone.
    spec fn same_source_but_pending(&self, other: &Self) -> bool {
        &&& self.input@ == other.input@
        &&& self.pos == other.pos
        &&& self.hash_table@ == other.hash_table@
        &&& self.chain_table@ == other.chain_table@
    }

    /// Appending packet `p` to a well-formed stream whose packets produce
    /// `input[..e]`, where `p` adds `input[e..e + k]`.
    proof fn lemma_append_bytes(
        ps: Seq<LzPacket>,
        p: LzPacket,
        input: Seq<u8>,
        e: int,
        b: Seq<u8>,
    )
        requires
            chain_ok(ps, Seq::empty()),
            apply_all(ps, Seq::empty()) == input.subrange(0, e),
            packet_ok(p, e),
            !(ps.len() > 0 && ps.last() is Literal && p is Literal),
            packet_effect(p, input.subrange(0, e)) == input.subrange(0, e) + b,
            0 <= e,
            e + b.len() <= input.len(),
            b == input.subrange(e, e + b.len()),
        ensures
            chain_ok(ps.push(p), Seq::empty()),
            apply_all(ps.push(p), Seq::empty()) == input.subrange(0, e + b.len()),
            encode_all(ps.push(p)) == encode_all(ps) + packet_bytes(p),
    {
        lemma_push(ps, p, Seq::empty());
        assert(input.subrange(0, e) + b =~= input.subrange(0, e + b.len()));
    }

    fn emit_literal(&mut self, bytes: &[u8])
        requires
            4 <= bytes@.len() <= WAD_LZ_MAX_LITERAL,
        ensures
            final(self).output@ == old(self).output@ + packet_bytes(LzPacket::Literal(bytes@)),
            final(self).packets@ == old(self).packets@.push(LzPacket::Literal(bytes@)),
            final(self).last_was_literal,
            final(self).same_source(&*old(self)),
    {
        if bytes.len() <= 0x12 {
            // flag = size - 3 (1-15 → size 4-18)
            let flag = (bytes.len() - 3) as u8;
            self.output.push(flag);
        } else {
            // flag = 0 (extended), then size - 18
            self.output.push(0);
            self.output.push((bytes.len() - 18) as u8);
        }
        push_range(&mut self.output, bytes, 0, bytes.len());
        self.last_was_literal = true;
        self.packets = Ghost(self.packets@.push(LzPacket::Literal(bytes@)));
        assert(bytes@.subrange(0, bytes@.len() as int) =~= bytes@);
        assert(self.output@ =~= old(self).output@ + packet_bytes(LzPacket::Literal(bytes@)));
    }

    /// Emit a back reference; returns how many input bytes it covers.
    fn emit_match(&mut self, distance: usize, length: usize) -> (n: usize)
        requires
            1 <= distance <= WAD_LZ_FAR_MAX_DIST,
            distance <= old(self).pos,
            WAD_LZ_MIN_MATCH <= length <= WAD_LZ_MAX_MATCH_MEDIUM,
        ensures
            WAD_LZ_MIN_MATCH <= n <= length,
            n == emit_len(distance as int, length as int),
            final(self).packets@ == old(self).packets@.push(final(self).packets@.last()),
            is_match(final(self).packets@.last(), distance as int, n as int),
            packet_ok(final(self).packets@.last(), old(self).pos as int),
            final(self).output@ == old(self).output@ + packet_bytes(final(self).packets@.last()),
            packet_bytes(final(self).packets@.last()).len() <= 4,
            !final(self).last_was_literal,
            final(self).same_source(&*old(self)),
    {
        self.last_was_literal = false;
        if distance <= 0x7FF && length <= WAD_LZ_MAX_MATCH_LITTLE {
            // Little match: distance 1-2048, length 1-7
            self.emit_little_match(distance, length);
            length
        } else if distance <= 0x4000 && length <= WAD_LZ_MAX_MATCH_MEDIUM {
            // Medium match: distance 1-16384, length 3-288
            if length >= 3 {
                self.emit_medium_match(distance, length);
                length
            } else {
                // length=2 is too short for a medium match (cannot happen: MIN_MATCH=3)
                self.emit_literal_from_match(length);
                length
            }
        } else if distance <= WAD_LZ_FAR_MAX_DIST && length >= 3 {
            // Far match: distance > 0x4000 up to 0x7FFF, length 3-264;
            // the length is capped and the capped length returned.
            let len = if length < WAD_LZ_MAX_MATCH_FAR {
                length
            } else {
                WAD_LZ_MAX_MATCH_FAR
            };
            self.emit_far_match(distance, len);
            len
        } else {
            // Fallback: not reachable with distance <= 0x7FFF and length >= 3
            let len = if length < WAD_LZ_MAX_MATCH_MEDIUM {
                length
            } else {
                WAD_LZ_MAX_MATCH_MEDIUM
            };
            let d = if distance < self.pos {
                distance
            } else {
                self.pos
            };
            let d = if d < 0x4000 {
                d
            } else {
                0x4000
            };
            self.emit_medium_match(d, len);
            len
        }
    }

    fn emit_little_match(&mut self, distance: usize, length: usize)
        requires
            1 <= distance <= 0x7FF,
            3 <= length <= WAD_LZ_MAX_MATCH_LITTLE,
        ensures
            final(self).packets@ == old(self).packets@.push(
                LzPacket::Little { dist: distance as int, len: length as int },
            ),
            final(self).output@ == old(self).output@ + packet_bytes(
                LzPacket::Little { dist: distance as int, len: length as int },
            ),
            final(self).last_was_literal == old(self).last_was_literal,
            final(self).same_source(&*old(self)),
    {
        // flag bits: [ms-1:3 bits] [dist_low:3 bits] [little_lit_size:2 bits]
        // b1 byte: dist_high bits (distance - 1) / 8
        let actual_dist = distance.saturating_sub(1);
        let dist_low = (actual_dist & 7) as u8;
        let dist_high = (actual_dist >> 3) as u8;
        let ms = (length as u8).saturating_sub(1);
        let flag = (ms << 5) | (dist_low << 2) | 0;  // little_lit_size = 0
        assert(actual_dist & 7 == actual_dist % 8 && actual_dist >> 3 == actual_dist / 8) by (
        bit_vector);
        assert(flag == ms * 32 + dist_low * 4) by (bit_vector)
            requires
                ms <= 6,
                dist_low < 8,
                flag == (ms << 5) | (dist_low << 2) | 0,
        ;
        self.output.push(flag);
        self.output.push(dist_high);
        self.packets = Ghost(
            self.packets@.push(LzPacket::Little { dist: distance as int, len: length as int }),
        );
        assert(self.output@ =~= old(self).output@ + packet_bytes(
            LzPacket::Little { dist: distance as int, len: length as int },
        ));
    }

    fn emit_medium_match(&mut self, distance: usize, length: usize)
        requires
            1 <= distance <= 0x4000,
            3 <= length <= WAD_LZ_MAX_MATCH_MEDIUM,
        ensures
            final(self).packets@ == old(self).packets@.push(
                LzPacket::Medium { dist: distance as int, len: length as int },
            ),
            final(self).output@ == old(self).output@ + packet_bytes(
                LzPacket::Medium { dist: distance as int, len: length as int },
            ),
            final(self).last_was_literal == old(self).last_was_literal,
            final(self).same_source(&*old(self)),
    {
        // flag: [type=001] [size:5 bits] (0=extended)
        // b1: [dist_low:6 bits] [little_lit_size:2 bits], b2: dist_high
        let actual_dist = distance.saturating_sub(1);
        let dist_low6 = (actual_dist & 0x3F) as u8;
        let dist_high = (actual_dist >> 6) as u8;
        assert(actual_dist & 0x3F == actual_dist % 64 && actual_dist >> 6 == actual_dist / 64) by (
        bit_vector);
        let ms = if length >= 2 {
            length - 2
        } else {
            0
        };
        if ms <= 0x1F && ms > 0 {
            // Non-extended: size in flag
            let flag = 0x20 | (ms as u8);
            assert(flag == 0x20 + (ms as u8)) by (bit_vector)
                requires
                    (ms as u8) < 32,
                    flag == 0x20 | (ms as u8),
            ;
            self.output.push(flag);
        } else {
            // Extended: flag with size=0, then extra size byte
            self.output.push(0x20);
            let ext = ms.saturating_sub(0x1F) as u8;
            self.output.push(ext);
        }
        let b1 = (dist_low6 << 2) | 0;
        assert(b1 == dist_low6 * 4) by (bit_vector)
            requires
                dist_low6 < 64,
                b1 == (dist_low6 << 2) | 0,
        ;
        self.output.push(b1);
        self.output.push(dist_high);
        self.packets = Ghost(
            self.packets@.push(LzPacket::Medium { dist: distance as int, len: length as int }),
        );
        assert(self.output@ =~= old(self).output@ + packet_bytes(
            LzPacket::Medium { dist: distance as int, len: length as int },
        ));
    }

    fn emit_far_match(&mut self, distance: usize, length: usize)
        requires
            0x4001 <= distance <= WAD_LZ_FAR_MAX_DIST,
            3 <= length <= WAD_LZ_MAX_MATCH_FAR,
        ensures
            final(self).packets@ == old(self).packets@.push(
                LzPacket::Far { dist: distance as int, len: length as int },
            ),
            final(self).output@ == old(self).output@ + packet_bytes(
                LzPacket::Far { dist: distance as int, len: length as int },
            ),
            final(self).last_was_literal == old(self).last_was_literal,
            final(self).same_source(&*old(self)),
    {
        // flag: [type=0001] [bit3=0] [size:3 bits] (0=extended)
        let adj_dist = distance - 0x4000;
        let dist_low6 = (adj_dist & 0x3F) as u8;
        let dist_high8 = (adj_dist >> 6) as u8;
        assert(adj_dist & 0x3F == adj_dist % 64 && adj_dist >> 6 == adj_dist / 64) by (bit_vector);
        let b0_val = (dist_low6 << 2) | 0;
        assert(b0_val == dist_low6 * 4) by (bit_vector)
            requires
                dist_low6 < 64,
                b0_val == (dist_low6 << 2) | 0,
        ;
        let b1_val = dist_high8;
        let ms = length.saturating_sub(2);
        if ms >= 1 && ms <= 7 {
            let flag = 0x10 | (ms as u8);
            assert(flag == 0x10 + (ms as u8)) by (bit_vector)
                requires
                    (ms as u8) < 8,
                    flag == 0x10 | (ms as u8),
            ;
            self.output.push(flag);
        } else {
            // Extended: flag with size=0, then extra byte
            let flag = 0x10;
            self.output.push(flag);
            let ext = ms.saturating_sub(7) as u8;
            self.output.push(ext);
        }
        self.output.push(b0_val);
        self.output.push(b1_val);
        self.packets = Ghost(
            self.packets@.push(LzPacket::Far { dist: distance as int, len: length as int }),
        );
        assert(self.output@ =~= old(self).output@ + packet_bytes(
            LzPacket::Far { dist: distance as int, len: length as int },
        ));
    }

    /// Padding packet: a far match of size 1 that copies nothing and carries
    /// no little literal.
    fn emit_padding_match(&mut self)
        ensures
            final(self).packets@ == old(self).packets@.push(LzPacket::Pad(Seq::empty())),
            final(self).output@ == old(self).output@ + packet_bytes(LzPacket::Pad(Seq::empty())),
            !final(self).last_was_literal,
            final(self).same_source(&*old(self)),
    {
        self.output.push(0x11);
        self.output.push(0);
        self.output.push(0);
        self.last_was_literal = false;
        self.packets = Ghost(self.packets@.push(LzPacket::Pad(Seq::empty())));
        assert(self.output@ =~= old(self).output@ + packet_bytes(LzPacket::Pad(Seq::empty())));
    }

    /// Padding packet carrying 1-3 little literal bytes (nothing is emitted
    /// for other lengths).
    fn emit_padding_with_little_literal(&mut self, bytes: &[u8])
        ensures
            1 <= bytes@.len() <= 3 ==> final(self).packets@ == old(self).packets@.push(
                LzPacket::Pad(bytes@),
            ) && final(self).output@ == old(self).output@ + packet_bytes(LzPacket::Pad(bytes@)),
            !(1 <= bytes@.len() <= 3) ==> final(self).packets@ == old(self).packets@
                && final(self).output@ == old(self).output@,
            final(self).last_was_literal == old(self).last_was_literal,
            final(self).same_source(&*old(self)),
    {
        if bytes.len() == 0 || bytes.len() > 3 {
            return;
        }
        // flag = 0x10 | (bit3=0) | (match_size=1)
        self.output.push(0x11);
        // b0: distance 0 in bits 2-7, little literal size in bits 0-1
        self.output.push(bytes.len() as u8);
        // b1: distance >> 6 = 0
        self.output.push(0);
        // Little literal bytes follow
        push_range(&mut self.output, bytes, 0, bytes.len());
        self.packets = Ghost(self.packets@.push(LzPacket::Pad(bytes@)));
        assert(bytes@.subrange(0, bytes@.len() as int) =~= bytes@);
        assert(self.output@ =~= old(self).output@ + packet_bytes(LzPacket::Pad(bytes@)));
    }

    /// Queue up to 3 input bytes from the current position as pending literals.
    fn emit_literal_from_match(&mut self, length: usize)
        requires
            old(self).pos + (if length < 3 {
                length as int
            } else {
                3
            }) <= old(self).input@.len(),
        ensures
            final(self).pending_literals@ == old(self).pending_literals@ + old(self).input@.subrange(
                old(self).pos as int,
                old(self).pos + (if length < 3 {
                    length as int
                } else {
                    3
                }),
            ),
            final(self).input@ == old(self).input@,
            final(self).pos == old(self).pos,
            final(self).output@ == old(self).output@,
            final(self).packets@ == old(self).packets@,
    {
        let count = if length < 3 {
            length
        } else {
            3
        };
        let pos = self.pos;
        let n = self.input.len();
        assert(pos + count <= n);
        let mut i: usize = 0;
        while i < count
            invariant
                i <= count,
                pos == self.pos,
                pos + count <= n,
                n == self.input@.len(),
                self.input@ == old(self).input@,
                self.pos == old(self).pos,
                self.output@ == old(self).output@,
                self.packets@ == old(self).packets@,
                self.pending_literals@ == old(self).pending_literals@ + self.input@.subrange(
                    pos as int,
                    pos + i,
                ),
            decreases count - i,
        {
            let b = self.input[pos + i];
            self.pending_literals.push(b);
            i += 1;
            assert(self.pending_literals@ =~= old(self).pending_literals@ + self.input@.subrange(
                pos as int,
                pos + i,
            ));
        }
    }

    /// Short literal run (1-3 bytes) as a padding packet's little literal.
    fn emit_literal_short(&mut self, bytes: &[u8])
        ensures
            1 <= bytes@.len() <= 3 ==> final(self).packets@ == old(self).packets@.push(
                LzPacket::Pad(bytes@),
            ) && final(self).output@ == old(self).output@ + packet_bytes(LzPacket::Pad(bytes@)),
            !(1 <= bytes@.len() <= 3) ==> final(self).packets@ == old(self).packets@
                && final(self).output@ == old(self).output@,
            final(self).same_source(&*old(self)),
    {
        self.emit_padding_with_little_literal(bytes);
    }

    /// The finished block: header, then the packet stream.
    fn finalize(self) -> (res: Vec<u8>)
        requires
            self.output@.len() <= usize::MAX - 16,
        ensures
            res@ == lz_header(16 + self.output@.len() as int) + self.output@,
    {
        let compressed = self.output;
        let total_size = 16 + compressed.len();
        let mut header = lz_header_bytes(total_size);
        push_range(&mut header, compressed.as_slice(), 0, compressed.len());
        assert(compressed@.subrange(0, compressed@.len() as int) =~= compressed@);
        header
    }
}

/// `s[start..stop]` as a slice.
pub(crate) fn slice_range(s: &[u8], start: usize, stop: usize) -> (r: &[u8])
    requires
        start <= stop <= s@.len(),
    ensures
        r@ == s@.subrange(start as int, stop as int),
{
    &s[start..stop]
}


// ── WAD containers ─────────────────────────────────────────────────

/// What zlib inflation (flate2's `ZlibDecoder`) makes of a byte sequence;
/// `None` when the stream is rejected.
pub uninterp spec fn zlib_inflate(data: Seq<u8>) -> Option<Seq<u8>>;

/// Inflate a zlib stream with flate2's `ZlibDecoder`, reading to the end.
#[verifier::external_body]
fn zlib_decompress(data: &[u8]) -> (res: Option<Vec<u8>>)
    ensures
        match res {
            Some(v) => zlib_inflate(data@) == Some(v@),
            None => zlib_inflate(data@) is None,
        },
{
    let mut decoder = flate2::read::ZlibDecoder::new(data);
    let mut out = Vec::new();
    match decoder.read_to_end(&mut out) {
        Ok(_) => Some(out),
        Err(_) => None,
    }
}

/// Zlib inflation as a decompression result.
pub open spec fn inflate_result(data: Seq<u8>) -> Result<Seq<u8>, WadError> {
    match zlib_inflate(data) {
        Some(v) => Ok(v),
        None => Err(WadError::ZlibError),
    }
}

/// `WAD\0` or `WAD\x01`: a WAD container with a header and one data block.
pub open spec fn has_wad_container_magic(data: Seq<u8>) -> bool {
    data.len() >= 4 && has_wad_magic(data) && (data[3] == 0u8 || data[3] == 1u8)
}

/// Header size of a WAD container: 0x20 for `WAD\0`, 0x10 for `WAD\x01`.
pub open spec fn wad_container_header_size(data: Seq<u8>) -> int {
    if data[3] == 0u8 {
        0x20
    } else {
        0x10
    }
}

/// A WAD container whose block descriptor is only partly present.
pub open spec fn wad_container_descriptor_cut(data: Seq<u8>) -> bool {
    has_wad_container_magic(data) && wad_container_header_size(data) + 4 <= data.len()
        < wad_container_header_size(data) + 8
}

/// Whether a WAD container's header ends inside its block descriptor
/// (see [`wad_container_descriptor_cut`]); [`decompress_wad`] refuses such data.
pub fn is_descriptor_cut(data: &[u8]) -> (r: bool)
    ensures
        r == wad_container_descriptor_cut(data@),
{
    if data.len() < 4 || data[0] != 0x57 || data[1] != 0x41 || data[2] != 0x44 {
        return false;
    }
    if data[3] != 0 && data[3] != 1 {
        return false;
    }
    let hs: usize = if data[3] == 0 {
        0x20
    } else {
        0x10
    };
    hs + 4 <= data.len() && data.len() < hs + 8
}

/// What [`decompress_wad`] yields.
pub open spec fn spec_decompress_wad(data: Seq<u8>) -> Result<Seq<u8>, WadError> {
    if data.len() > 20 && data[0] == 0x78u8 {
        inflate_result(data)
    } else if has_wad_container_magic(data) {
        let hs = wad_container_header_size(data);
        if data.len() < hs + 4 {
            Err(WadError::WadTooShort)
        } else {
            let off = le_u32(data, hs);
            let size = le_u32(data, hs + 4);
            if off + size > data.len() {
                Err(WadError::BlockOutOfRange)
            } else {
                let block = data.subrange(off, off + size);
                if block.len() > 2 && block[0] as int % 16 == 8 {
                    inflate_result(block)
                } else {
                    Ok(block)
                }
            }
        }
    } else if has_wad_magic(data) {
        spec_decompress_wad_lz(data)
    } else {
        Err(WadError::NotWad)
    }
}

/// Copy `data[start..stop]` into a new vector.
pub(crate) fn copy_range(data: &[u8], start: usize, stop: usize) -> (v: Vec<u8>)
    requires
        start <= stop <= data@.len(),
    ensures
        v@ == data@.subrange(start as int, stop as int),
{
    let mut v: Vec<u8> = Vec::new();
    push_range(&mut v, data, start, stop);
    assert(v@ =~= data@.subrange(start as int, stop as int));
    v
}

/// Decompress a WAD data block: a raw zlib stream, a `WAD\0`/`WAD\x01`
/// container (zlib or stored block), or a WAD LZ block.
pub fn decompress_wad(data: &[u8]) -> (res: Result<Vec<u8>, WadError>)
    requires
        !wad_container_descriptor_cut(data@),
    ensures
        match spec_decompress_wad(data@) {
            Ok(out) => res matches Ok(v) && v@ == out,
            Err(e) => res == Err::<Vec<u8>, WadError>(e),
        },
{
    // Raw zlib data (no header)
    if data.len() > 20 && data[0] == 0x78 {
        return match zlib_decompress(data) {
            Some(out) => Ok(out),
            None => Err(WadError::ZlibError),
        };
    }
    // WAD magic with a version byte: WAD\0 or WAD\x01
    if data.len() >= 4 && data[0] == 0x57 && data[1] == 0x41 && data[2] == 0x44 && (data[3] == 0
        || data[3] == 1) {
        let header_size: usize = if data[3] == 0 {
            0x20
        } else {
            0x10
        };
        if data.len() < header_size + 4 {
            return Err(WadError::WadTooShort);
        }
        let block_offset = r_u32(data, header_size);
        let block_size = r_u32(data, header_size + 4);
        if (block_offset as u64) + (block_size as u64) > data.len() as u64 {
            return Err(WadError::BlockOutOfRange);
        }
        let start = block_offset as usize;
        let stop = start + block_size as usize;
        // Try zlib decompression
        let first: u8 = if block_size > 0 {
            data[start]
        } else {
            0
        };
        assert(first & 0x0F == first % 16) by (bit_vector);
        if block_size > 2 && (first & 0x0F) == 0x08 {
            let compressed = slice_range(data, start, stop);
            return match zlib_decompress(compressed) {
                Some(out) => Ok(out),
                None => Err(WadError::ZlibError),
            };
        }
        // Stored block (not compressed)
        return Ok(copy_range(data, start, stop));
    }
    // 3-byte WAD magic: WAD LZ format
    if data.len() >= 3 && data[0] == 0x57 && data[1] == 0x41 && data[2] == 0x44 {
        return decompress_wad_lz(data);
    }
    Err(WadError::NotWad)
}

/// What [`is_wad_compressed`] answers.
pub open spec fn spec_is_wad_compressed(data: Seq<u8>) -> bool {
    if data.len() < 4 {
        false
    } else if has_wad_magic(data) {
        true
    } else {
        data[0] == 0x78u8 && (data[1] == 0x01u8 || data[1] == 0x9Cu8 || data[1] == 0xDAu8)
    }
}

/// Check if WAD data is compressed (WAD container, WAD LZ, or zlib header).
pub fn is_wad_compressed(data: &[u8]) -> (r: bool)
    ensures
        r == spec_is_wad_compressed(data@),
{
    if data.len() < 4 {
        return false;
    }
    if data[0] == 0x57 && data[1] == 0x41 && data[2] == 0x44 && (data[3] == 0 || data[3] == 1) {
        return true;
    }
    // 3-byte WAD magic (WAD LZ)
    if data[0] == 0x57 && data[1] == 0x41 && data[2] == 0x44 {
        return true;
    }
    // zlib header
    data[0] == 0x78 && (data[1] == 0x01 || data[1] == 0x9C || data[1] == 0xDA)
}

/// Parse a sector range: 4-byte LBA + 4-byte count (from data at offset).
pub fn parse_sector_range(data: &[u8], offset: usize) -> (r: (u32, u32))
    requires
        offset + 8 <= data.len(),
    ensures
        r.0 as int == le_u32(data@, offset as int),
        r.1 as int == le_u32(data@, offset + 4),
{
    (r_u32(data, offset), r_u32(data, offset + 4))
}

/// Bytes of sectors `offset..offset + count` (0x800 bytes each), cut at the end of the data.
pub open spec fn sector_range_bytes(data: Seq<u8>, offset: int, count: int) -> Seq<u8> {
    let start = offset * 0x800;
    let size = count * 0x800;
    if start + size > data.len() {
        data.subrange(start, data.len() as int)
    } else {
        data.subrange(start, start + size)
    }
}

/// Read a sector range worth of data from a file.
pub fn read_sector_range(file_data: &[u8], offset: u32, count: u32) -> (v: Vec<u8>)
    requires
        offset as int * 0x800 <= file_data@.len(),
    ensures
        v@ == sector_range_bytes(file_data@, offset as int, count as int),
{
    let start64 = (offset as u64) * (SECTOR_SIZE as u64);
    let size64 = (count as u64) * (SECTOR_SIZE as u64);
    let start = start64 as usize;
    if start64 + size64 > file_data.len() as u64 {
        copy_range(file_data, start, file_data.len())
    } else {
        copy_range(file_data, start, start + size64 as usize)
    }
}

/// Entries `data[start + i*es .. start + (i+1)*es]` for `i < count`, skipping
/// those that do not fit in the data.
pub open spec fn array_entries(data: Seq<u8>, start: int, count: nat, es: int) -> Seq<Seq<u8>>
    decreases count,
{
    if count == 0 {
        Seq::empty()
    } else {
        let prev = array_entries(data, start, (count - 1) as nat, es);
        let off = start + (count - 1) * es;
        if off + es <= data.len() {
            prev.push(data.subrange(off, off + es))
        } else {
            prev
        }
    }
}

/// The entries of a table of `count` records of `entry_size` bytes at `offset`.
fn table_entries(data: &[u8], offset: u32, count: u32, entry_size: u32) -> (v: Vec<Vec<u8>>)
    ensures
        v@.map_values(|e: Vec<u8>| e@) == array_entries(
            data@,
            offset as int,
            count as nat,
            entry_size as int,
        ),
{
    let mut entries: Vec<Vec<u8>> = Vec::new();
    let mut i: u32 = 0;
    while i < count
        invariant
            i <= count,
            entries@.map_values(|e: Vec<u8>| e@) == array_entries(
                data@,
                offset as int,
                i as nat,
                entry_size as int,
            ),
        decreases count - i,
    {
        assert((i as u64) * (entry_size as u64) <= 0xFFFF_FFFE_0000_0001) by (nonlinear_arith)
            requires
                i < 0x1_0000_0000,
                entry_size < 0x1_0000_0000,
        ;
        let off = (offset as u64) + (i as u64) * (entry_size as u64);
        let end = off + entry_size as u64;
        let ghost prev = entries@;
        if end <= data.len() as u64 {
            let e = copy_range(data, off as usize, end as usize);
            entries.push(e);
            assert(entries@.map_values(|e: Vec<u8>| e@) =~= prev.map_values(|e: Vec<u8>| e@).push(
                e@,
            ));
        }
        i += 1;
    }
    entries
}

/// Read an array range (offset in bytes, count of entries, entry_size).
pub fn read_array_range(data: &[u8], offset: u32, count: u32, entry_size: u32) -> (v: Vec<Vec<u8>>)
    ensures
        v@.map_values(|e: Vec<u8>| e@) == array_entries(
            data@,
            offset as int,
            count as nat,
            entry_size as int,
        ),
{
    table_entries(data, offset, count, entry_size)
}

/// Extract class entries with given entry size.
pub fn extract_class_entries(data: &[u8], offset: u32, count: u32, entry_size: u32) -> (v: Vec<
    Vec<u8>,
>)
    ensures
        v@.map_values(|e: Vec<u8>| e@) == array_entries(
            data@,
            offset as int,
            count as nat,
            entry_size as int,
        ),
{
    table_entries(data, offset, count, entry_size)
}

/// Name of the `k`-th 8-byte entry of the GC/UYA data header.
pub open spec fn gcuya_entry_name(k: int) -> Seq<char> {
    if k == 0 {
        "overlay"@
    } else if k == 1 {
        "core_index"@
    } else if k == 2 {
        "gs_ram"@
    } else if k == 3 {
        "hud_header"@
    } else if k == 4 {
        "hud_banks[0]"@
    } else if k == 5 {
        "hud_banks[1]"@
    } else if k == 6 {
        "hud_banks[2]"@
    } else if k == 7 {
        "hud_banks[3]"@
    } else if k == 8 {
        "hud_banks[4]"@
    } else if k == 9 {
        "core_data"@
    } else {
        "transition_textures"@
    }
}

/// Number of entries in the GC/UYA data header.
pub const GCUYA_DATA_HEADER_COUNT: usize = 11;

/// Name of the `k`-th entry of the GC/UYA data header (byte offset `8 * k`).
pub fn gcuya_data_header_entry_name(k: usize) -> (s: &'static str)
    ensures
        s@ == gcuya_entry_name(k as int),
{
    if k == 0 {
        "overlay"
    } else if k == 1 {
        "core_index"
    } else if k == 2 {
        "gs_ram"
    } else if k == 3 {
        "hud_header"
    } else if k == 4 {
        "hud_banks[0]"
    } else if k == 5 {
        "hud_banks[1]"
    } else if k == 6 {
        "hud_banks[2]"
    } else if k == 7 {
        "hud_banks[3]"
    } else if k == 8 {
        "hud_banks[4]"
    } else if k == 9 {
        "core_data"
    } else {
        "transition_textures"
    }
}

/// Parse the GC/UYA data header: for each of the 11 entries that fits in the
/// data, its name, byte offset and size (signed).
pub fn parse_gc_uya_data_header(data: &[u8]) -> (r: Vec<(&'static str, i32, i32)>)
    ensures
        r@.len() == (if data@.len() / 8 < 11 {
            (data@.len() / 8) as int
        } else {
            11
        }),
        forall|k: int|
            0 <= k < r@.len() ==> {
                &&& (#[trigger] r@[k]).0@ == gcuya_entry_name(k)
                &&& r@[k].1 as int == signed32(le_u32(data@, 8 * k))
                &&& r@[k].2 as int == signed32(le_u32(data@, 8 * k + 4))
            },
{
    let mut ranges: Vec<(&'static str, i32, i32)> = Vec::new();
    let mut k: usize = 0;
    while k < GCUYA_DATA_HEADER_COUNT
        invariant
            k <= 11,
            ranges@.len() == (if data@.len() / 8 < k {
                (data@.len() / 8) as int
            } else {
                k as int
            }),
            forall|j: int|
                0 <= j < ranges@.len() ==> {
                    &&& (#[trigger] ranges@[j]).0@ == gcuya_entry_name(j)
                    &&& ranges@[j].1 as int == signed32(le_u32(data@, 8 * j))
                    &&& ranges@[j].2 as int == signed32(le_u32(data@, 8 * j + 4))
                },
        decreases 11 - k,
    {
        let byte_off = k * 8;
        if byte_off + 8 <= data.len() {
            let name = gcuya_data_header_entry_name(k);
            ranges.push((name, r_s32(data, byte_off), r_s32(data, byte_off + 4)));
        }
        k += 1;
    }
    ranges
}

/// Parse an audio header: `(lba, size_sectors, vag_id)` for each 16-byte entry
/// that fits in the data.
pub fn parse_audio_header(data: &[u8], file_lba_off: u32) -> (r: Vec<(u32, u32, u32)>)
    requires
        data@.len() >= 0x28,
        le_u32(data@, 0x24) + file_lba_off <= u32::MAX,
        le_u32(data@, 0x20) == 0 || le_u32(data@, 0x24) + file_lba_off + (le_u32(data@, 0x20)
            - 1) * 0x10 <= u32::MAX,
    ensures
        r@ == audio_entries(
            data@,
            le_u32(data@, 0x24) + file_lba_off,
            le_u32(data@, 0x20) as nat,
        ),
{
    let audio_count = r_u32(data, 0x20);
    let audio_ofs = r_u32(data, 0x24) + file_lba_off;
    let mut entries: Vec<(u32, u32, u32)> = Vec::new();
    let mut i: u32 = 0;
    while i < audio_count
        invariant
            i <= audio_count,
            audio_count == 0 || audio_ofs + (audio_count - 1) * 0x10 <= u32::MAX,
            entries@ == audio_entries(data@, audio_ofs as int, i as nat),
        decreases audio_count - i,
    {
        assert(i * 0x10 <= (audio_count - 1) * 0x10) by (nonlinear_arith)
            requires
                i < audio_count,
        ;
        let off = (audio_ofs + i * 0x10) as usize;
        if data.len() >= 12 && off <= data.len() - 12 {
            let lba = r_u32(data, off);
            let size = r_u32(data, off + 4);
            let vag_id = r_u32(data, off + 8);
            entries.push((lba, size, vag_id));
        }
        i += 1;
    }
    entries
}

/// Audio entries `(lba, size, vag_id)` of the first `count` 16-byte records at `ofs`
/// that fit in the data.
pub open spec fn audio_entries(data: Seq<u8>, ofs: int, count: nat) -> Seq<(u32, u32, u32)>
    decreases count,
{
    if count == 0 {
        Seq::empty()
    } else {
        let prev = audio_entries(data, ofs, (count - 1) as nat);
        let off = ofs + (count - 1) * 0x10;
        if off + 12 <= data.len() {
            prev.push(
                (
                    le_u32(data, off) as u32,
                    le_u32(data, off + 4) as u32,
                    le_u32(data, off + 8) as u32,
                ),
            )
        } else {
            prev
        }
    }
}

/// Parse a scene header (after the 10-word data header): light count and
/// offset, model count and offset, scene offset.
pub fn parse_scene_header(data: &[u8]) -> (r: Vec<u32>)
    requires
        data@.len() >= 0x3C,
    ensures
        r@.len() == 5,
        forall|k: int| 0 <= k < 5 ==> #[trigger] r@[k] as int == le_u32(data@, 0x28 + 4 * k),
{
    let off = 0x28;  // 10 * 4 bytes
    let light_count = r_u32(data, off);
    let light_ofs = r_u32(data, off + 4);
    let model_count = r_u32(data, off + 8);
    let model_ofs = r_u32(data, off + 12);
    let scene_ofs = r_u32(data, off + 16);
    let mut v: Vec<u32> = Vec::new();
    v.push(light_count);
    v.push(light_ofs);
    v.push(model_count);
    v.push(model_ofs);
    v.push(scene_ofs);
    v
}

/// `name_i` for entry `i` of a global WAD header.
pub open spec fn indexed_name(name: Seq<char>, i: nat) -> Seq<char> {
    name + "_"@ + decimal(i)
}

/// Global WAD entries `(name_i, lba, size)` of the first `count` 16-byte
/// records at `ofs` that fit in the data.
pub open spec fn global_entries(data: Seq<u8>, name: Seq<char>, ofs: int, count: nat) -> Seq<
    (Seq<char>, u32, u32),
>
    decreases count,
{
    if count == 0 {
        Seq::empty()
    } else {
        let prev = global_entries(data, name, ofs, (count - 1) as nat);
        let i = (count - 1) as nat;
        let off = ofs + i * 0x10;
        if off + 0x10 <= data.len() {
            prev.push((indexed_name(name, i), le_u32(data, off) as u32, le_u32(data, off + 4) as u32))
        } else {
            prev
        }
    }
}

/// Parse a global WAD header: for each 16-byte entry that fits in the data,
/// `("<name>_<i>", sector, size)`.
pub fn parse_global_header(data: &[u8], name: &str) -> (r: Vec<(String, u32, u32)>)
    requires
        data@.len() >= 0x18,
        le_u32(data@, 0x10) == 0 || le_u32(data@, 0x14) + (le_u32(data@, 0x10) - 1) * 0x10
            <= u32::MAX,
    ensures
        r@.map_values(|e: (String, u32, u32)| (e.0@, e.1, e.2)) == global_entries(
            data@,
            name@,
            le_u32(data@, 0x14),
            le_u32(data@, 0x10) as nat,
        ),
{
    let count = r_u32(data, 0x10);
    let entry_ofs = r_u32(data, 0x14);
    let mut entries: Vec<(String, u32, u32)> = Vec::new();
    let mut i: u32 = 0;
    while i < count
        invariant
            i <= count,
            count == 0 || entry_ofs + (count - 1) * 0x10 <= u32::MAX,
            entries@.map_values(|e: (String, u32, u32)| (e.0@, e.1, e.2)) == global_entries(
                data@,
                name@,
                entry_ofs as int,
                i as nat,
            ),
        decreases count - i,
    {
        assert(i * 0x10 <= (count - 1) * 0x10) by (nonlinear_arith)
            requires
                i < count,
        ;
        let off = (entry_ofs + i * 0x10) as usize;
        let ghost prev = entries@;
        if data.len() >= 0x10 && off <= data.len() - 0x10 {
            let sub_lba = r_u32(data, off);
            let sub_size = r_u32(data, off + 4);
            let mut sub_name = String::from_str(name);
            proof {
                reveal_strlit("_");
            }
            sub_name.append("_");
            push_decimal(&mut sub_name, i as u64, 0);
            assert(sub_name@ =~= indexed_name(name@, i as nat));
            entries.push((sub_name, sub_lba, sub_size));
            assert(entries@.map_values(|e: (String, u32, u32)| (e.0@, e.1, e.2)) =~= prev.map_values(
                |e: (String, u32, u32)| (e.0@, e.1, e.2),
            ).push((indexed_name(name@, i as nat), sub_lba, sub_size)));
        }
        i += 1;
    }
    entries
}

} // verus!
