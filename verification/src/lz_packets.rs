//! Packet-level model of WAD LZ streams: the packets an encoder emits, their
//! byte encodings, what each adds to the output, and the proof that decoding
//! a well-formed packet sequence gives back what the packets describe.

use vstd::prelude::*;
use crate::common::le_u32;
use crate::lz_spec::{
    copy_back, has_wad_magic, lz_decode, lz_step, lz_stream_end, spec_decompress_wad_lz, WadError,
};

verus! {

/// One packet of a WAD LZ stream.
pub enum LzPacket {
    /// 4 to 273 bytes copied verbatim.
    Literal(Seq<u8>),
    /// Back reference of 3-8 bytes, 1 to 0x800 bytes back.
    Little { dist: int, len: int },
    /// Back reference of 3-288 bytes, 1 to 0x4000 bytes back.
    Medium { dist: int, len: int },
    /// Back reference of 3-264 bytes, 0x4001 to 0x7fff bytes back.
    Far { dist: int, len: int },
    /// Far-match form that copies nothing, followed by 0-3 literal bytes.
    Pad(Seq<u8>),
}

/// Bytes of a packet in the stream.
pub open spec fn packet_bytes(p: LzPacket) -> Seq<u8> {
    match p {
        LzPacket::Literal(b) => if b.len() <= 18 {
            seq![(b.len() - 3) as u8] + b
        } else {
            seq![0u8, (b.len() - 18) as u8] + b
        },
        LzPacket::Little { dist, len } => seq![
            ((len - 1) * 32 + ((dist - 1) % 8) * 4) as u8,
            ((dist - 1) / 8) as u8,
        ],
        LzPacket::Medium { dist, len } => (if len - 2 <= 31 {
            seq![(0x20 + len - 2) as u8]
        } else {
            seq![0x20u8, (len - 2 - 31) as u8]
        }) + seq![(((dist - 1) % 64) * 4) as u8, ((dist - 1) / 64) as u8],
        LzPacket::Far { dist, len } => (if len - 2 <= 7 {
            seq![(0x10 + len - 2) as u8]
        } else {
            seq![0x10u8, (len - 2 - 7) as u8]
        }) + seq![(((dist - 0x4000) % 64) * 4) as u8, ((dist - 0x4000) / 64) as u8],
        LzPacket::Pad(b) => seq![0x11u8, b.len() as u8, 0u8] + b,
    }
}

/// A packet is encodable and, for matches, reaches no further back than the
/// `n` bytes already produced.
pub open spec fn packet_ok(p: LzPacket, n: int) -> bool {
    match p {
        LzPacket::Literal(b) => 4 <= b.len() <= 273,
        LzPacket::Little { dist, len } => 1 <= dist <= 0x800 && dist <= n && 3 <= len <= 8,
        LzPacket::Medium { dist, len } => 1 <= dist <= 0x4000 && dist <= n && 3 <= len <= 288,
        LzPacket::Far { dist, len } => 0x4001 <= dist <= 0x7fff && dist <= n && 3 <= len <= 264,
        LzPacket::Pad(b) => b.len() <= 3,
    }
}

/// Output after a packet has been decoded onto `dest`.
pub open spec fn packet_effect(p: LzPacket, dest: Seq<u8>) -> Seq<u8> {
    match p {
        LzPacket::Literal(b) => dest + b,
        LzPacket::Little { dist, len } => copy_back(dest, dest.len() - dist, len as nat),
        LzPacket::Medium { dist, len } => copy_back(dest, dest.len() - dist, len as nat),
        LzPacket::Far { dist, len } => copy_back(dest, dest.len() - dist, len as nat),
        LzPacket::Pad(b) => dest + b,
    }
}

/// Concatenated encodings of a packet sequence.
pub open spec fn encode_all(ps: Seq<LzPacket>) -> Seq<u8>
    decreases ps.len(),
{
    if ps.len() == 0 {
        Seq::empty()
    } else {
        packet_bytes(ps[0]) + encode_all(ps.drop_first())
    }
}

/// Output after decoding a packet sequence onto `dest`.
pub open spec fn apply_all(ps: Seq<LzPacket>, dest: Seq<u8>) -> Seq<u8>
    decreases ps.len(),
{
    if ps.len() == 0 {
        dest
    } else {
        apply_all(ps.drop_first(), packet_effect(ps[0], dest))
    }
}

/// Every packet is encodable against the output before it, and no literal
/// packet directly follows another.
pub open spec fn chain_ok(ps: Seq<LzPacket>, dest: Seq<u8>) -> bool
    decreases ps.len(),
{
    ps.len() == 0 || {
        &&& packet_ok(ps[0], dest.len() as int)
        &&& (ps.len() > 1 && ps[0] is Literal ==> !(ps[1] is Literal))
        &&& chain_ok(ps.drop_first(), packet_effect(ps[0], dest))
    }
}

/// The 16-byte WAD LZ header for a block of `total` bytes (size field truncated to 32 bits).
pub open spec fn lz_header(total: int) -> Seq<u8> {
    seq![
        0x57u8,
        0x41u8,
        0x44u8,
        (total % 0x100) as u8,
        ((total / 0x100) % 0x100) as u8,
        ((total / 0x1_0000) % 0x100) as u8,
        ((total / 0x100_0000) % 0x100) as u8,
        0u8,
        0u8,
        0u8,
        0u8,
        0u8,
        0u8,
        0u8,
        0u8,
        0u8,
    ]
}

/// `out` is a WAD LZ block (header, then a well-formed packet stream) whose
/// packets reproduce `input`.
pub open spec fn is_lz_encoding(out: Seq<u8>, input: Seq<u8>) -> bool {
    exists|ps: Seq<LzPacket>|
        {
            &&& out == lz_header(16 + encode_all(ps).len() as int) + encode_all(ps)
            &&& chain_ok(ps, Seq::empty())
            &&& apply_all(ps, Seq::empty()) == input
        }
}

/// The bytes of `p` sit at `ptr` in `data`.
pub open spec fn placed_at(data: Seq<u8>, ptr: int, p: LzPacket) -> bool {
    &&& 0 <= ptr
    &&& ptr + packet_bytes(p).len() <= data.len()
    &&& forall|j: int|
        ptr <= j < ptr + packet_bytes(p).len() ==> #[trigger] data[j] == packet_bytes(p)[j - ptr]
}

proof fn lemma_step_literal(data: Seq<u8>, end: int, ptr: int, dest: Seq<u8>, b: Seq<u8>)
    requires
        16 <= ptr,
        ptr + packet_bytes(LzPacket::Literal(b)).len() <= end <= data.len(),
        placed_at(data, ptr, LzPacket::Literal(b)),
        4 <= b.len() <= 273,
        ptr + packet_bytes(LzPacket::Literal(b)).len() < end ==> data[ptr + packet_bytes(
            LzPacket::Literal(b),
        ).len()] >= 0x10,
    ensures
        lz_step(data, end, ptr, dest) == Ok::<(int, Seq<u8>), WadError>(
            (ptr + packet_bytes(LzPacket::Literal(b)).len(), dest + b),
        ),
{
    reveal(lz_step);
    let enc = packet_bytes(LzPacket::Literal(b));
    if b.len() <= 18 {
        assert(data[ptr] == enc[0]);
        assert(data.subrange(ptr + 1, ptr + 1 + b.len()) =~= b) by {
            assert forall|i: int| 0 <= i < b.len() implies data.subrange(ptr + 1, ptr + 1 + b.len())[i]
                == b[i] by {
                assert(data[ptr + 1 + i] == enc[1 + i]);
            }
        }
    } else {
        assert(data[ptr] == enc[0]);
        assert(data[ptr + 1] == enc[1]);
        assert(data.subrange(ptr + 2, ptr + 2 + b.len()) =~= b) by {
            assert forall|i: int| 0 <= i < b.len() implies data.subrange(ptr + 2, ptr + 2 + b.len())[i]
                == b[i] by {
                assert(data[ptr + 2 + i] == enc[2 + i]);
            }
        }
    }
}

proof fn lemma_step_pad(data: Seq<u8>, end: int, ptr: int, dest: Seq<u8>, b: Seq<u8>)
    requires
        16 <= ptr,
        ptr + packet_bytes(LzPacket::Pad(b)).len() <= end <= data.len(),
        placed_at(data, ptr, LzPacket::Pad(b)),
        b.len() <= 3,
    ensures
        lz_step(data, end, ptr, dest) == Ok::<(int, Seq<u8>), WadError>(
            (ptr + packet_bytes(LzPacket::Pad(b)).len(), dest + b),
        ),
{
    reveal(lz_step);
    let enc = packet_bytes(LzPacket::Pad(b));
    assert(data[ptr] == enc[0]);
    assert(data[ptr + 1] == enc[1]);
    assert(data[ptr + 2] == enc[2]);
    assert(data.subrange(ptr + 3, ptr + 3 + b.len()) =~= b) by {
        assert forall|i: int| 0 <= i < b.len() implies data.subrange(ptr + 3, ptr + 3 + b.len())[i]
            == b[i] by {
            assert(data[ptr + 3 + i] == enc[3 + i]);
        }
    }
    if b.len() == 0 {
        assert(dest + b =~= dest);
    }
}

proof fn lemma_step_little(data: Seq<u8>, end: int, ptr: int, dest: Seq<u8>, dist: int, len: int)
    requires
        16 <= ptr,
        ptr + 2 <= end <= data.len(),
        placed_at(data, ptr, LzPacket::Little { dist, len }),
        packet_ok(LzPacket::Little { dist, len }, dest.len() as int),
    ensures
        lz_step(data, end, ptr, dest) == Ok::<(int, Seq<u8>), WadError>(
            (ptr + 2, copy_back(dest, dest.len() - dist, len as nat)),
        ),
{
    reveal(lz_step);
    let enc = packet_bytes(LzPacket::Little { dist, len });
    let flag = (len - 1) * 32 + ((dist - 1) % 8) * 4;
    assert(data[ptr] == enc[0]);
    assert(data[ptr + 1] == enc[1]);
    assert(data[ptr] as int == flag);
    assert(flag / 32 == len - 1);
    assert((flag / 4) % 8 == (dist - 1) % 8);
    assert(flag % 4 == 0);
    assert(data[ptr + 1] as int == (dist - 1) / 8);
}

proof fn lemma_step_medium(data: Seq<u8>, end: int, ptr: int, dest: Seq<u8>, dist: int, len: int)
    requires
        16 <= ptr,
        ptr + packet_bytes(LzPacket::Medium { dist, len }).len() <= end <= data.len(),
        placed_at(data, ptr, LzPacket::Medium { dist, len }),
        packet_ok(LzPacket::Medium { dist, len }, dest.len() as int),
    ensures
        lz_step(data, end, ptr, dest) == Ok::<(int, Seq<u8>), WadError>(
            (
                ptr + packet_bytes(LzPacket::Medium { dist, len }).len(),
                copy_back(dest, dest.len() - dist, len as nat),
            ),
        ),
{
    reveal(lz_step);
    let enc = packet_bytes(LzPacket::Medium { dist, len });
    let ms = len - 2;
    let b1 = ((dist - 1) % 64) * 4;
    let b2 = (dist - 1) / 64;
    assert(b1 / 4 == (dist - 1) % 64);
    assert(b1 % 4 == 0);
    assert(data[ptr] == enc[0]);
    assert(data[ptr + 1] == enc[1]);
    assert(data[ptr + 2] == enc[2]);
    if ms <= 31 {
        assert(data[ptr] as int == 0x20 + ms);
        assert(data[ptr + 1] as int == b1);
        assert(data[ptr + 2] as int == b2);
    } else {
        assert(data[ptr + 3] == enc[3]);
        assert(data[ptr] as int == 0x20);
        assert(data[ptr + 1] as int == ms - 31);
        assert(data[ptr + 2] as int == b1);
        assert(data[ptr + 3] as int == b2);
    }
}

proof fn lemma_step_far(data: Seq<u8>, end: int, ptr: int, dest: Seq<u8>, dist: int, len: int)
    requires
        16 <= ptr,
        ptr + packet_bytes(LzPacket::Far { dist, len }).len() <= end <= data.len(),
        placed_at(data, ptr, LzPacket::Far { dist, len }),
        packet_ok(LzPacket::Far { dist, len }, dest.len() as int),
    ensures
        lz_step(data, end, ptr, dest) == Ok::<(int, Seq<u8>), WadError>(
            (
                ptr + packet_bytes(LzPacket::Far { dist, len }).len(),
                copy_back(dest, dest.len() - dist, len as nat),
            ),
        ),
{
    reveal(lz_step);
    let enc = packet_bytes(LzPacket::Far { dist, len });
    let ms = len - 2;
    let a = dist - 0x4000;
    let b0 = (a % 64) * 4;
    let b1 = a / 64;
    assert(b0 / 4 == a % 64);
    assert(b0 % 4 == 0);
    assert(data[ptr] == enc[0]);
    assert(data[ptr + 1] == enc[1]);
    assert(data[ptr + 2] == enc[2]);
    if ms <= 7 {
        assert(data[ptr] as int == 0x10 + ms);
        assert(((0x10 + ms) / 8) % 2 == 0);
        assert(data[ptr + 1] as int == b0);
        assert(data[ptr + 2] as int == b1);
    } else {
        assert(data[ptr + 3] == enc[3]);
        assert(data[ptr] as int == 0x10);
        assert(data[ptr + 1] as int == ms - 7);
        assert(data[ptr + 2] as int == b0);
        assert(data[ptr + 3] as int == b1);
    }
}

/// One packet placed at `ptr` decodes to its effect.
pub proof fn lemma_step(data: Seq<u8>, end: int, ptr: int, dest: Seq<u8>, p: LzPacket)
    requires
        16 <= ptr,
        ptr + packet_bytes(p).len() <= end <= data.len(),
        placed_at(data, ptr, p),
        packet_ok(p, dest.len() as int),
        p is Literal && ptr + packet_bytes(p).len() < end ==> data[ptr + packet_bytes(p).len()]
            >= 0x10,
    ensures
        lz_step(data, end, ptr, dest) == Ok::<(int, Seq<u8>), WadError>(
            (ptr + packet_bytes(p).len(), packet_effect(p, dest)),
        ),
{
    match p {
        LzPacket::Literal(b) => lemma_step_literal(data, end, ptr, dest, b),
        LzPacket::Little { dist, len } => lemma_step_little(data, end, ptr, dest, dist, len),
        LzPacket::Medium { dist, len } => lemma_step_medium(data, end, ptr, dest, dist, len),
        LzPacket::Far { dist, len } => lemma_step_far(data, end, ptr, dest, dist, len),
        LzPacket::Pad(b) => lemma_step_pad(data, end, ptr, dest, b),
    }
}

/// Decoding a well-formed packet stream gives the packets' combined effect.
pub proof fn lemma_decode_all(data: Seq<u8>, end: int, ptr: int, dest: Seq<u8>, ps: Seq<LzPacket>)
    requires
        16 <= ptr <= end <= data.len(),
        data.subrange(ptr, end) == encode_all(ps),
        chain_ok(ps, dest),
    ensures
        lz_decode(data, end, ptr, dest) == Ok::<Seq<u8>, WadError>(apply_all(ps, dest)),
    decreases ps.len(),
{
    if ps.len() == 0 {
        assert(data.subrange(ptr, end).len() == 0);
    } else {
        let p = ps[0];
        let enc = packet_bytes(p);
        let rest = ps.drop_first();
        let next = ptr + enc.len();
        assert(encode_all(ps) == enc + encode_all(rest));
        assert(encode_all(ps).len() == enc.len() + encode_all(rest).len());
        assert(next <= end);
        assert forall|j: int| ptr <= j < next implies #[trigger] data[j] == enc[j - ptr] by {
            assert(data.subrange(ptr, end)[j - ptr] == data[j]);
            assert((enc + encode_all(rest))[j - ptr] == enc[j - ptr]);
        }
        assert(data.subrange(next, end) =~= encode_all(rest)) by {
            assert forall|i: int| 0 <= i < end - next implies data.subrange(next, end)[i]
                == encode_all(rest)[i] by {
                assert(data.subrange(ptr, end)[enc.len() + i] == data[next + i]);
                assert((enc + encode_all(rest))[enc.len() + i] == encode_all(rest)[i]);
            }
        }
        assert(enc.len() >= 1) by {
            match p {
                LzPacket::Literal(b) => {},
                LzPacket::Little { .. } => {},
                LzPacket::Medium { .. } => {},
                LzPacket::Far { .. } => {},
                LzPacket::Pad(b) => {},
            }
        }
        if p is Literal && next < end {
            assert(rest.len() > 0);
            let q = rest[0];
            assert(!(q is Literal));
            assert(chain_ok(rest, packet_effect(p, dest)));
            assert(packet_ok(q, packet_effect(p, dest).len() as int));
            lemma_non_literal_first_byte_any(q, packet_effect(p, dest).len() as int);
            assert(encode_all(rest) == packet_bytes(q) + encode_all(rest.drop_first()));
            assert(data[next] == data.subrange(next, end)[0]);
            assert(encode_all(rest)[0] == packet_bytes(q)[0]);
        }
        lemma_step(data, end, ptr, dest, p);
        lemma_decode_all(data, end, next, packet_effect(p, dest), rest);
    }
}

/// Packets other than literals start with a byte of at least 0x10 (any output length).
pub proof fn lemma_non_literal_first_byte_any(p: LzPacket, n: int)
    requires
        packet_ok(p, n),
        !(p is Literal),
    ensures
        packet_bytes(p).len() >= 1,
        packet_bytes(p)[0] >= 0x10,
{
}

/// Appending a packet at the end of a sequence.
pub proof fn lemma_push(ps: Seq<LzPacket>, p: LzPacket, dest: Seq<u8>)
    ensures
        encode_all(ps.push(p)) == encode_all(ps) + packet_bytes(p),
        apply_all(ps.push(p), dest) == packet_effect(p, apply_all(ps, dest)),
        chain_ok(ps.push(p), dest) == (chain_ok(ps, dest) && packet_ok(
            p,
            apply_all(ps, dest).len() as int,
        ) && !(ps.len() > 0 && ps.last() is Literal && p is Literal)),
    decreases ps.len(),
{
    if ps.len() == 0 {
        let e = Seq::<LzPacket>::empty();
        assert(ps.push(p).drop_first() =~= e);
        assert(ps.push(p)[0] == p);
        assert(encode_all(e) == Seq::<u8>::empty());
        assert(packet_bytes(p) + Seq::<u8>::empty() =~= packet_bytes(p));
        assert(apply_all(ps.push(p), dest) == apply_all(e, packet_effect(p, dest)));
        assert(chain_ok(e, packet_effect(p, dest)));
    } else {
        let q = ps[0];
        assert(ps.push(p).drop_first() =~= ps.drop_first().push(p));
        assert(ps.push(p)[0] == q);
        lemma_push(ps.drop_first(), p, packet_effect(q, dest));
        assert(encode_all(ps.push(p)) =~= encode_all(ps) + packet_bytes(p));
        assert(apply_all(ps.push(p), dest) == apply_all(ps.drop_first().push(p), packet_effect(q, dest)));
        if ps.len() > 1 {
            assert(ps.push(p)[1] == ps[1]);
            assert(ps.drop_first().last() == ps.last());
        }
    }
}

/// A back reference that matches the input reproduces the next input bytes.
pub proof fn lemma_copy_back_match(s: Seq<u8>, k: int, d: int, l: nat)
    requires
        1 <= d <= k,
        k + l <= s.len(),
        forall|j: int| k <= j < k + l ==> s[j - d] == #[trigger] s[j],
    ensures
        copy_back(s.subrange(0, k), k - d, l) == s.subrange(0, k + l),
    decreases l,
{
    if l == 0 {
    } else {
        let dest = s.subrange(0, k);
        assert(dest[k - d] == s[k - d]);
        assert(s[k] == s[k - d]);
        assert(dest.push(dest[k - d]) =~= s.subrange(0, k + 1));
        lemma_copy_back_match(s, k + 1, d, (l - 1) as nat);
    }
}

/// A WAD LZ block whose packets reproduce `input` decompresses back to
/// `input`, as long as its size fits the 32-bit size field.
#[verifier::rlimit(40)]
pub proof fn lemma_lz_encoding_decodes(out: Seq<u8>, input: Seq<u8>)
    requires
        is_lz_encoding(out, input),
        out.len() <= 0xffff_ffff,
    ensures
        spec_decompress_wad_lz(out) == Ok::<Seq<u8>, WadError>(input),
{
    let ps = choose|ps: Seq<LzPacket>|
        {
            &&& out == lz_header(16 + encode_all(ps).len() as int) + encode_all(ps)
            &&& chain_ok(ps, Seq::empty())
            &&& apply_all(ps, Seq::empty()) == input
        };
    let body = encode_all(ps);
    let total = 16 + body.len() as int;
    assert(out.len() == total);
    assert(out[0] == 0x57u8 && out[1] == 0x41u8 && out[2] == 0x44u8);
    assert(has_wad_magic(out));
    assert(out[3] as int == total % 0x100);
    assert(out[4] as int == (total / 0x100) % 0x100);
    assert(out[5] as int == (total / 0x1_0000) % 0x100);
    assert(out[6] as int == (total / 0x100_0000) % 0x100);
    assert(le_u32(out, 3) == total);
    assert(lz_stream_end(out) == total);
    assert(out.subrange(16, total) =~= body);
    lemma_decode_all(out, total, 16, Seq::empty(), ps);
}


/// A match packet's bytes followed by 1-3 little literal bytes: their count
/// goes in the low two bits of the packet's byte two before its end.
pub open spec fn with_little_literal(p: LzPacket, lit: Seq<u8>) -> Seq<u8> {
    let pb = packet_bytes(p);
    pb.update(pb.len() - 2, (pb[pb.len() - 2] + lit.len()) as u8) + lit
}

/// Decoding a little match whose flag announces little literal bytes
/// copies the match, then appends those bytes.
proof fn lemma_step_little_ll(data: Seq<u8>, end: int, ptr: int, dest: Seq<u8>, dist: int, len: int, lit: Seq<u8>)
    requires
        16 <= ptr,
        1 <= lit.len() <= 3,
        ptr + with_little_literal(LzPacket::Little { dist, len }, lit).len() <= end <= data.len(),
        forall|j: int|
            ptr <= j < ptr + with_little_literal(LzPacket::Little { dist, len }, lit).len() ==> #[trigger] data[j]
                == with_little_literal(LzPacket::Little { dist, len }, lit)[j - ptr],
        packet_ok(LzPacket::Little { dist, len }, dest.len() as int),
    ensures
        lz_step(data, end, ptr, dest) == Ok::<(int, Seq<u8>), WadError>(
            (ptr + 2 + lit.len(), copy_back(dest, dest.len() - dist, len as nat) + lit),
        ),
{
    reveal(lz_step);
    let e = with_little_literal(LzPacket::Little { dist, len }, lit);
    let ll = lit.len() as int;
    let flag = (len - 1) * 32 + ((dist - 1) % 8) * 4 + ll;
    assert(data[ptr] == e[0]);
    assert(data[ptr + 1] == e[1]);
    assert(data[ptr] as int == flag);
    assert(flag / 32 == len - 1);
    assert((flag / 4) % 8 == (dist - 1) % 8);
    assert(flag % 4 == ll);
    assert(data[ptr + 1] as int == (dist - 1) / 8);
    assert(data.subrange(ptr + 2, ptr + 2 + ll) =~= lit) by {
        assert forall|i: int| 0 <= i < ll implies data.subrange(ptr + 2, ptr + 2 + ll)[i] == lit[i] by {
            assert(data[ptr + 2 + i] == e[2 + i]);
        }
    }
}

/// Decoding a medium match whose offset byte announces little literal
/// bytes copies the match, then appends those bytes.
proof fn lemma_step_medium_ll(data: Seq<u8>, end: int, ptr: int, dest: Seq<u8>, dist: int, len: int, lit: Seq<u8>)
    requires
        16 <= ptr,
        1 <= lit.len() <= 3,
        ptr + with_little_literal(LzPacket::Medium { dist, len }, lit).len() <= end <= data.len(),
        forall|j: int|
            ptr <= j < ptr + with_little_literal(LzPacket::Medium { dist, len }, lit).len() ==> #[trigger] data[j]
                == with_little_literal(LzPacket::Medium { dist, len }, lit)[j - ptr],
        packet_ok(LzPacket::Medium { dist, len }, dest.len() as int),
    ensures
        lz_step(data, end, ptr, dest) == Ok::<(int, Seq<u8>), WadError>(
            (
                ptr + with_little_literal(LzPacket::Medium { dist, len }, lit).len(),
                copy_back(dest, dest.len() - dist, len as nat) + lit,
            ),
        ),
{
    reveal(lz_step);
    let e = with_little_literal(LzPacket::Medium { dist, len }, lit);
    let ll = lit.len() as int;
    let ms = len - 2;
    let b1 = ((dist - 1) % 64) * 4 + ll;
    let b2 = (dist - 1) / 64;
    assert(b1 / 4 == (dist - 1) % 64);
    assert(b1 % 4 == ll);
    assert(data[ptr] == e[0]);
    assert(data[ptr + 1] == e[1]);
    assert(data[ptr + 2] == e[2]);
    if ms <= 31 {
        assert(data[ptr] as int == 0x20 + ms);
        assert(data[ptr + 1] as int == b1);
        assert(data[ptr + 2] as int == b2);
        assert(data.subrange(ptr + 3, ptr + 3 + ll) =~= lit) by {
            assert forall|i: int| 0 <= i < ll implies data.subrange(ptr + 3, ptr + 3 + ll)[i] == lit[i] by {
                assert(data[ptr + 3 + i] == e[3 + i]);
            }
        }
    } else {
        assert(data[ptr + 3] == e[3]);
        assert(data[ptr] as int == 0x20);
        assert(data[ptr + 1] as int == ms - 31);
        assert(data[ptr + 2] as int == b1);
        assert(data[ptr + 3] as int == b2);
        assert(data.subrange(ptr + 4, ptr + 4 + ll) =~= lit) by {
            assert forall|i: int| 0 <= i < ll implies data.subrange(ptr + 4, ptr + 4 + ll)[i] == lit[i] by {
                assert(data[ptr + 4 + i] == e[4 + i]);
            }
        }
    }
}

/// Decoding a far match whose offset byte announces little literal bytes
/// copies the match, then appends those bytes.
proof fn lemma_step_far_ll(data: Seq<u8>, end: int, ptr: int, dest: Seq<u8>, dist: int, len: int, lit: Seq<u8>)
    requires
        16 <= ptr,
        1 <= lit.len() <= 3,
        ptr + with_little_literal(LzPacket::Far { dist, len }, lit).len() <= end <= data.len(),
        forall|j: int|
            ptr <= j < ptr + with_little_literal(LzPacket::Far { dist, len }, lit).len() ==> #[trigger] data[j]
                == with_little_literal(LzPacket::Far { dist, len }, lit)[j - ptr],
        packet_ok(LzPacket::Far { dist, len }, dest.len() as int),
    ensures
        lz_step(data, end, ptr, dest) == Ok::<(int, Seq<u8>), WadError>(
            (
                ptr + with_little_literal(LzPacket::Far { dist, len }, lit).len(),
                copy_back(dest, dest.len() - dist, len as nat) + lit,
            ),
        ),
{
    reveal(lz_step);
    let e = with_little_literal(LzPacket::Far { dist, len }, lit);
    let ll = lit.len() as int;
    let ms = len - 2;
    let a = dist - 0x4000;
    let b0 = (a % 64) * 4 + ll;
    let b1 = a / 64;
    assert(b0 / 4 == a % 64);
    assert(b0 % 4 == ll);
    assert(data[ptr] == e[0]);
    assert(data[ptr + 1] == e[1]);
    assert(data[ptr + 2] == e[2]);
    if ms <= 7 {
        assert(data[ptr] as int == 0x10 + ms);
        assert(((0x10 + ms) / 8) % 2 == 0);
        assert(data[ptr + 1] as int == b0);
        assert(data[ptr + 2] as int == b1);
        assert(data.subrange(ptr + 3, ptr + 3 + ll) =~= lit) by {
            assert forall|i: int| 0 <= i < ll implies data.subrange(ptr + 3, ptr + 3 + ll)[i] == lit[i] by {
                assert(data[ptr + 3 + i] == e[3 + i]);
            }
        }
    } else {
        assert(data[ptr + 3] == e[3]);
        assert(data[ptr] as int == 0x10);
        assert(data[ptr + 1] as int == ms - 7);
        assert(data[ptr + 2] as int == b0);
        assert(data[ptr + 3] as int == b1);
        assert(data.subrange(ptr + 4, ptr + 4 + ll) =~= lit) by {
            assert forall|i: int| 0 <= i < ll implies data.subrange(ptr + 4, ptr + 4 + ll)[i] == lit[i] by {
                assert(data[ptr + 4 + i] == e[4 + i]);
            }
        }
    }
}

/// A match packet (little, medium or far) followed by 1-3 little literal
/// bytes, announced in the low two bits of its byte two before its end,
/// decodes to the match's copy followed by those bytes, and reading goes on
/// after them.
pub proof fn lemma_match_little_literal(
    data: Seq<u8>,
    end: int,
    ptr: int,
    dest: Seq<u8>,
    p: LzPacket,
    lit: Seq<u8>,
)
    requires
        16 <= ptr,
        !(p is Literal),
        !(p is Pad),
        packet_ok(p, dest.len() as int),
        1 <= lit.len() <= 3,
        ptr + with_little_literal(p, lit).len() <= end <= data.len(),
        forall|j: int|
            ptr <= j < ptr + with_little_literal(p, lit).len() ==> #[trigger] data[j] == with_little_literal(
                p,
                lit,
            )[j - ptr],
    ensures
        lz_step(data, end, ptr, dest) == Ok::<(int, Seq<u8>), WadError>(
            (ptr + with_little_literal(p, lit).len(), packet_effect(p, dest) + lit),
        ),
{
    match p {
        LzPacket::Little { dist, len } => lemma_step_little_ll(data, end, ptr, dest, dist, len, lit),
        LzPacket::Medium { dist, len } => lemma_step_medium_ll(data, end, ptr, dest, dist, len, lit),
        LzPacket::Far { dist, len } => lemma_step_far_ll(data, end, ptr, dest, dist, len, lit),
        _ => {},
    }
}

} // verus!
