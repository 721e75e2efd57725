//! Gadget icon textures (SBlk blocks of the GADGET WAD): telling 4-bit
//! from 8-bit palettized pixel data, and decoding either into unswizzled
//! colour indices and a palette.

use vstd::prelude::*;
use crate::common::{le_u16, le_u32, r_u16, r_u32};
use crate::texture::{
    is_black, multiply_alphas, palette_swap, rac4_in_range, rac4_index, raw_palette_entry,
    scaled_alpha, unswizzle_palette, unswizzle_pixels, unswizzled_entry,
};
use crate::wad::{copy_range, slice_range};

verus! {

/// Nibble `i` of `data`, high nibble first (0 past the data).
pub open spec fn high_first_nibble(data: Seq<u8>, i: int) -> u8 {
    if i / 2 < data.len() {
        if i % 2 == 0 {
            data[i / 2] / 16
        } else {
            data[i / 2] % 16
        }
    } else {
        0
    }
}

/// Split bytes into `area` 4-bit values, high nibble first.
pub fn unpack_nibbles(data: &[u8], area: usize) -> (nibbles: Vec<u8>)
    ensures
        nibbles@.len() == area,
        forall|i: int| 0 <= i < area ==> #[trigger] nibbles@[i] == high_first_nibble(data@, i),
{
    let mut nibbles: Vec<u8> = Vec::new();
    let mut i: usize = 0;
    while i < area
        invariant
            i <= area,
            nibbles@.len() == i,
            forall|j: int| 0 <= j < i ==> #[trigger] nibbles@[j] == high_first_nibble(data@, j),
        decreases area - i,
    {
        let byte_idx = i / 2;
        let v: u8 = if byte_idx < data.len() {
            let b = data[byte_idx];
            if i % 2 == 0 {
                assert((b >> 4u8) & 0x0F == b / 16) by (bit_vector);
                (b >> 4) & 0x0F
            } else {
                assert((b >> 0u8) & 0x0F == b % 16) by (bit_vector);
                (b >> 0) & 0x0F
            }
        } else {
            0
        };
        nibbles.push(v);
        i += 1;
    }
    nibbles
}

/// The first `n` nibbles of `data` (high first) are all below `bound`.
pub open spec fn nibbles_below(data: Seq<u8>, n: int, bound: int) -> bool {
    forall|i: int| 0 <= i < n ==> (#[trigger] high_first_nibble(data, i)) < bound
}

/// The first `n` bytes of `data` are all below `bound`.
pub open spec fn bytes_below(data: Seq<u8>, n: int, bound: int) -> bool {
    forall|i: int| 0 <= i < n ==> #[trigger] data[i] < bound
}

/// Colours a 4-bit texture of `area` pixels can have in `avail` bytes: the
/// bytes after its packed indices, as 4-byte colours, at most 256.
pub open spec fn pal4_colors(avail: int, area: int) -> int {
    let nb = (area + 1) / 2;
    let bytes = if avail - nb < 1024 {
        avail - nb
    } else {
        1024
    };
    if bytes / 4 < 256 {
        bytes / 4
    } else {
        256
    }
}

/// Colours an 8-bit texture of `area` pixels can have in `avail` bytes.
pub open spec fn pal8_colors(avail: int, area: int) -> int {
    let bytes = if avail - area < 1024 {
        avail - area
    } else {
        1024
    };
    if bytes / 4 < 256 {
        bytes / 4
    } else {
        256
    }
}

/// A 4-bit reading fits: room for the indices and 16 colours, and every
/// index below the colour count taken as a byte (so a full 256-colour
/// palette admits no index).
pub open spec fn pal4_possible(px: Seq<u8>, area: int) -> bool {
    let nb = (area + 1) / 2;
    &&& px.len() >= nb + 64
    &&& nibbles_below(px.subrange(0, nb), area, pal4_colors(px.len() as int, area) % 256)
}

/// An 8-bit reading fits: room for the indices and 16 colours, and every
/// index below the colour count.
pub open spec fn pal8_possible(px: Seq<u8>, area: int) -> bool {
    &&& px.len() >= area + 64
    &&& bytes_below(px, area, pal8_colors(px.len() as int, area))
}

/// The format read off a `w`×`h` pixel block: 4-bit when that reading
/// fits, else 8-bit when that one fits, else 4-bit with the colours that
/// follow the indices.
pub open spec fn spec_detect_format(px: Seq<u8>, area: int) -> (Seq<char>, int) {
    if pal4_possible(px, area) {
        ("pal4"@, pal4_colors(px.len() as int, area))
    } else if pal8_possible(px, area) {
        ("pal8"@, pal8_colors(px.len() as int, area))
    } else {
        let nb = (area + 1) / 2;
        let rest = if px.len() >= nb {
            px.len() - nb
        } else {
            0
        };
        ("pal4"@, if rest / 4 < 256 {
            rest / 4
        } else {
            256
        })
    }
}

/// Tell a 4-bit from an 8-bit palettized pixel block (see
/// [`spec_detect_format`]). When both readings fit the 4-bit one is taken:
/// 4-bit indices take at most 16 distinct values.
pub fn detect_format(px_data: &[u8], w: u32, h: u32) -> (r: (&'static str, u32))
    requires
        w * h <= u32::MAX,
        px_data@.len() + 0x400 <= usize::MAX,
    ensures
        r.0@ == spec_detect_format(px_data@, w * h).0,
        r.1 == spec_detect_format(px_data@, w * h).1,
{
    let area = (w * h) as usize;
    let px_avail = px_data.len();
    let nb = area / 2 + area % 2;
    assert(nb == (area + 1) / 2);
    // pal4 check: nibble-packed indices + palette
    let mut pal4_ok = false;
    let mut pal4_count: u32 = 0;
    if px_avail >= nb && px_avail - nb >= 64 {
        let pal_bytes = if px_avail - nb < 1024 {
            px_avail - nb
        } else {
            1024
        };
        pal4_count = if pal_bytes / 4 < 256 {
            (pal_bytes / 4) as u32
        } else {
            256
        };
        let bound = (pal4_count % 256) as u8;
        let packed = slice_range(px_data, 0, nb);
        let nibbles = unpack_nibbles(packed, area);
        let mut all = true;
        let mut i: usize = 0;
        while i < area
            invariant
                i <= area,
                nibbles@.len() == area,
                forall|j: int| 0 <= j < area ==> #[trigger] nibbles@[j] == high_first_nibble(packed@, j),
                all <==> forall|j: int| 0 <= j < i ==> #[trigger] high_first_nibble(packed@, j) < bound,
            decreases area - i,
        {
            if nibbles[i] >= bound {
                all = false;
            }
            i += 1;
        }
        pal4_ok = all;
    }
    assert(pal4_ok == pal4_possible(px_data@, area as int));
    if pal4_ok {
        return ("pal4", pal4_count);
    }
    // pal8 check: byte indices + palette
    if px_avail >= area && px_avail - area >= 64 {
        let pal_bytes = if px_avail - area < 1024 {
            px_avail - area
        } else {
            1024
        };
        let pal8_count: u32 = if pal_bytes / 4 < 256 {
            (pal_bytes / 4) as u32
        } else {
            256
        };
        let mut all = true;
        let mut i: usize = 0;
        while i < area
            invariant
                i <= area <= px_data@.len(),
                all <==> forall|j: int| 0 <= j < i ==> #[trigger] px_data@[j] < pal8_count,
            decreases area - i,
        {
            if px_data[i] as u32 >= pal8_count {
                all = false;
            }
            i += 1;
        }
        assert(all == pal8_possible(px_data@, area as int));
        if all {
            return ("pal8", pal8_count);
        }
    } else {
        assert(!pal8_possible(px_data@, area as int));
    }
    let rest = if px_avail >= nb {
        px_avail - nb
    } else {
        0
    };
    ("pal4", if rest / 4 < 256 {
        (rest / 4) as u32
    } else {
        256
    })
}

/// The colour-index palette: entry `i` holds `i` in its red byte.
fn passthrough_palette() -> (pal: Vec<[u8; 4]>)
    ensures
        pal@.len() == 256,
        forall|i: int| 0 <= i < 256 ==> (#[trigger] pal@[i])[0] == i,
{
    let mut pal: Vec<[u8; 4]> = Vec::new();
    let mut i: u32 = 0;
    while i < 256
        invariant
            i <= 256,
            pal@.len() == i,
            forall|j: int| 0 <= j < i ==> (#[trigger] pal@[j])[0] == j,
        decreases 256 - i,
    {
        pal.push([i as u8, 0, 0, 255]);
        i += 1;
    }
    pal
}

/// The colour index of pixel `k` of a `w`-wide texture whose indices are
/// packed low nibble first in `packed` (GS swizzle): 0 past the data.
pub open spec fn swizzled_index(packed: Seq<u8>, w: int, k: int) -> int {
    let sw = rac4_index(k, w);
    if sw / 2 < packed.len() {
        if sw % 2 == 0 {
            packed[sw / 2] as int % 16
        } else {
            packed[sw / 2] as int / 16
        }
    } else {
        0
    }
}

/// Unswizzle the colour indices of a `w`×`h` texture packed low nibble first.
fn unswizzle_indices(packed: &[u8], w: u32, h: u32) -> (idx: Vec<u8>)
    requires
        w * h <= u32::MAX,
        forall|k: int| 0 <= k < w * h ==> rac4_in_range(k, w as int),
    ensures
        idx@.len() == w * h,
        forall|k: int| 0 <= k < w * h ==> #[trigger] idx@[k] == swizzled_index(packed@, w as int, k),
{
    let pal = passthrough_palette();
    let unswizzled = unswizzle_pixels(packed, w, h, pal.as_slice());
    let area = (w * h) as usize;
    let mut idx: Vec<u8> = Vec::new();
    let mut k: usize = 0;
    while k < area
        invariant
            k <= area,
            area == w * h,
            unswizzled@.len() == area,
            pal@.len() == 256,
            forall|i: int| 0 <= i < 256 ==> (#[trigger] pal@[i])[0] == i,
            forall|j: int|
                0 <= j < w * h ==> match unswizzled_entry(packed@, w as int, pal@, j) {
                    Some(c) => (#[trigger] unswizzled@[j]) == c,
                    None => is_black(unswizzled@[j]),
                },
            idx@.len() == k,
            forall|j: int| 0 <= j < k ==> #[trigger] idx@[j] == swizzled_index(packed@, w as int, j),
        decreases area - k,
    {
        let px = unswizzled[k];
        proof {
            let sw = rac4_index(k as int, w as int);
            if sw / 2 < packed@.len() {
                let v = if sw % 2 == 0 {
                    packed@[sw / 2] as int % 16
                } else {
                    packed@[sw / 2] as int / 16
                };
                assert(v < 256);
                assert(pal@[v][0] == v);
            }
        }
        idx.push(px[0]);
        k += 1;
    }
    idx
}

/// Colour `j` of a gadget palette: raw entry `palette_swap(j)` of the first
/// `colors` 4-byte entries of `raw`, alpha scaled; black past them.
pub open spec fn gadget_palette_entry(raw: Seq<u8>, colors: int, j: int, c: [u8; 4]) -> bool {
    let s = palette_swap(j);
    if s < colors && 4 * s + 4 <= raw.len() {
        &&& c[0] == raw[4 * s]
        &&& c[1] == raw[4 * s + 1]
        &&& c[2] == raw[4 * s + 2]
        &&& c[3] == scaled_alpha(raw[4 * s + 3])
    } else {
        is_black(c)
    }
}

/// The palette of `colors` raw entries: alphas scaled, then GS-unswizzled
/// to 256 colours.
fn gadget_palette(raw: &[u8], colors: usize) -> (pal: Vec<[u8; 4]>)
    requires
        colors <= 256,
    ensures
        pal@.len() == 256,
        forall|j: int| 0 <= j < 256 ==> gadget_palette_entry(raw@, colors as int, j, #[trigger] pal@[j]),
{
    // Parse palette
    let mut rgba: Vec<[u8; 4]> = Vec::new();
    let mut c: usize = 0;
    while c < colors
        invariant
            c <= colors <= 256,
            rgba@.len() == (if c < raw@.len() / 4 {
                c as int
            } else {
                (raw@.len() / 4) as int
            }),
            forall|j: int|
                0 <= j < rgba@.len() ==> (#[trigger] rgba@[j])@ == raw@.subrange(4 * j, 4 * j + 4),
        decreases colors - c,
    {
        let off = c * 4;
        if off + 4 <= raw.len() {
            let e = [raw[off], raw[off + 1], raw[off + 2], raw[off + 3]];
            let ghost k = rgba@.len() as int;
            rgba.push(e);
            assert(rgba@[k]@ =~= raw@.subrange(4 * k, 4 * k + 4));
        }
        c += 1;
    }
    let ghost parsed = rgba@;
    multiply_alphas(rgba.as_mut_slice());
    // Flatten and unswizzle
    let mut flat: Vec<u8> = Vec::new();
    let mut i: usize = 0;
    while i < rgba.len()
        invariant
            i <= rgba@.len(),
            flat@.len() == 4 * i,
            forall|j: int, d: int|
                0 <= j < i && 0 <= d < 4 ==> #[trigger] flat@[4 * j + d] == rgba@[j]@[d],
        decreases rgba@.len() - i,
    {
        let e = rgba[i];
        let ghost before = flat@;
        flat.push(e[0]);
        flat.push(e[1]);
        flat.push(e[2]);
        flat.push(e[3]);
        assert forall|j: int, d: int| 0 <= j < i + 1 && 0 <= d < 4 implies #[trigger] flat@[4 * j
            + d] == rgba@[j]@[d] by {
            if j < i {
                assert(flat@[4 * j + d] == before[4 * j + d]);
            }
        }
        i += 1;
    }
    let pal = unswizzle_palette(flat.as_slice());
    proof {
        assert forall|j: int| 0 <= j < 256 implies gadget_palette_entry(
            raw@,
            colors as int,
            j,
            #[trigger] pal@[j],
        ) by {
            let s = palette_swap(j);
            crate::texture::lemma_palette_swap_involution(j);
            if s < colors && 4 * s + 4 <= raw@.len() {
                assert(s < rgba@.len());
                assert(raw_palette_entry(flat@, s) == Some(flat@.subrange(4 * s, 4 * s + 4)));
                assert(pal@[j]@ == flat@.subrange(4 * s, 4 * s + 4));
                assert(pal@[j][0] == pal@[j]@[0] && pal@[j][1] == pal@[j]@[1]);
                assert(pal@[j][2] == pal@[j]@[2] && pal@[j][3] == pal@[j]@[3]);
                assert(flat@[4 * s + 0] == rgba@[s]@[0]);
                assert(flat@[4 * s + 1] == rgba@[s]@[1]);
                assert(flat@[4 * s + 2] == rgba@[s]@[2]);
                assert(flat@[4 * s + 3] == rgba@[s]@[3]);
                assert(parsed[s]@ == raw@.subrange(4 * s, 4 * s + 4));
                assert(rgba@[s][0] == rgba@[s]@[0] && parsed[s][0] == parsed[s]@[0]);
                assert(rgba@[s][1] == rgba@[s]@[1] && parsed[s][1] == parsed[s]@[1]);
                assert(rgba@[s][2] == rgba@[s]@[2] && parsed[s][2] == parsed[s]@[2]);
                assert(rgba@[s][3] == rgba@[s]@[3] && parsed[s][3] == parsed[s]@[3]);
            } else {
                if s < colors {
                    assert(s >= rgba@.len());
                }
                assert(raw_palette_entry(flat@, s) is None);
            }
        }
    }
    pal
}

/// Decode an 8-bit gadget texture: `None` when the data holds fewer than
/// `w * h` index bytes and `pal_colors` colours; else the unswizzled colour
/// indices (read from the index bytes as 4-bit values, as the GS stores
/// them) and the palette that follows the indices.
pub fn decode_pal8(px_data: &[u8], w: u32, h: u32, pal_colors: u32) -> (r: Option<(Vec<u8>, Vec<[u8; 4]>)>)
    requires
        w * h <= u32::MAX,
        pal_colors <= 256,
        forall|k: int| 0 <= k < w * h ==> rac4_in_range(k, w as int),
    ensures
        px_data@.len() < w * h + 4 * pal_colors ==> r is None,
        px_data@.len() >= w * h + 4 * pal_colors ==> (r matches Some((idx, pal)) && idx@.len() == w
            * h && (forall|k: int|
            0 <= k < w * h ==> #[trigger] idx@[k] == swizzled_index(
                px_data@.subrange(0, w * h),
                w as int,
                k,
            )) && pal@.len() == 256 && forall|j: int|
            0 <= j < 256 ==> gadget_palette_entry(
                px_data@.subrange(w * h, w * h + 4 * pal_colors),
                pal_colors as int,
                j,
                #[trigger] pal@[j],
            )),
{
    let area = (w * h) as usize;
    let pal_bytes = pal_colors as usize * 4;
    if px_data.len() < area || px_data.len() - area < pal_bytes {
        return None;
    }
    let indices = slice_range(px_data, 0, area);
    let pal_raw = slice_range(px_data, area, area + pal_bytes);
    let pal = gadget_palette(pal_raw, pal_colors as usize);
    let idx = unswizzle_indices(indices, w, h);
    Some((idx, pal))
}

/// The `area` nibbles of `px` (high first) packed back two to a byte, low
/// nibble first.
pub open spec fn repacked_byte(px: Seq<u8>, area: int, b: int) -> u8 {
    let lo = if 2 * b < area {
        high_first_nibble(px, 2 * b)
    } else {
        0
    };
    let hi = if 2 * b + 1 < area {
        high_first_nibble(px, 2 * b + 1)
    } else {
        0
    };
    (lo + 16 * hi) as u8
}

/// Decode a 4-bit gadget texture: `None` when the bytes after the packed
/// indices hold fewer than 16 colours (and fewer than `pal_colors`); else
/// the unswizzled colour indices and the palette that follows the indices
/// (`pal_colors` colours, or as many as there are).
pub fn decode_pal4(px_data: &[u8], w: u32, h: u32, pal_colors: u32) -> (r: Option<(Vec<u8>, Vec<[u8; 4]>)>)
    requires
        w * h <= u32::MAX,
        pal_colors <= 256,
        px_data@.len() >= (w * h + 1) / 2,
        forall|k: int| 0 <= k < w * h ==> rac4_in_range(k, w as int),
    ensures
        ({
            let area = w * h;
            let nb = (area + 1) / 2;
            let colors = if px_data@.len() < nb + 4 * pal_colors {
                (px_data@.len() - nb) / 4
            } else {
                pal_colors as int
            };
            let packed = Seq::new(nb as nat, |b: int| repacked_byte(px_data@.subrange(0, nb), area, b));
            if px_data@.len() < nb + 4 * pal_colors && colors < 16 {
                r is None
            } else {
                r matches Some((idx, pal)) && idx@.len() == area && (forall|k: int|
                    0 <= k < area ==> #[trigger] idx@[k] == swizzled_index(packed, w as int, k))
                    && pal@.len() == 256 && forall|j: int|
                    0 <= j < 256 ==> gadget_palette_entry(
                        px_data@.subrange(nb, nb + 4 * colors),
                        colors,
                        j,
                        #[trigger] pal@[j],
                    )
            }
        }),
{
    let area = (w * h) as usize;
    let nibble_bytes = area / 2 + area % 2;
    assert(nibble_bytes == (area + 1) / 2);
    let pc = pal_colors as usize;
    let actual_pal = if px_data.len() - nibble_bytes < pc * 4 {
        let c = (px_data.len() - nibble_bytes) / 4;
        if c < 16 {
            return None;
        }
        c
    } else {
        pc
    };
    // Unpack nibbles, then repack them low nibble first for the unswizzler
    let head = slice_range(px_data, 0, nibble_bytes);
    let indices = unpack_nibbles(head, area);
    let mut packed: Vec<u8> = Vec::new();
    let mut b: usize = 0;
    while b < nibble_bytes
        invariant
            b <= nibble_bytes,
            nibble_bytes == (area + 1) / 2,
            indices@.len() == area,
            forall|i: int| 0 <= i < area ==> #[trigger] indices@[i] == high_first_nibble(head@, i),
            packed@.len() == b,
            forall|j: int| 0 <= j < b ==> #[trigger] packed@[j] == repacked_byte(head@, area as int, j),
        decreases nibble_bytes - b,
    {
        let lo: u8 = if 2 * b < area {
            indices[2 * b]
        } else {
            0
        };
        let hi: u8 = if 2 * b + 1 < area {
            indices[2 * b + 1]
        } else {
            0
        };
        assert(lo < 16 && hi < 16);
        assert(lo | (hi << 4u8) == lo + 16 * hi) by (bit_vector)
            requires
                lo < 16,
                hi < 16,
        ;
        packed.push(lo | (hi << 4));
        b += 1;
    }
    assert(packed@ =~= Seq::new(
        nibble_bytes as nat,
        |j: int| repacked_byte(px_data@.subrange(0, nibble_bytes as int), area as int, j),
    ));
    let idx = unswizzle_indices(packed.as_slice(), w, h);
    // Palette after the packed indices
    let pal_raw = slice_range(px_data, nibble_bytes, nibble_bytes + actual_pal * 4);
    let pal = gadget_palette(pal_raw, actual_pal);
    Some((idx, pal))
}

/// A texture of a gadget texture block: its sub-block count, name (4 raw
/// bytes), width, height, and the bytes from its pixel offset to the end of
/// the block.
pub struct SblkTexture {
    pub sub_count: usize,
    pub name: Vec<u8>,
    pub width: u32,
    pub height: u32,
    pub pixels: Vec<u8>,
}

/// Positions of the SBlk textures of a texture block from `pos` on, at most
/// `left`: each starts with its total size (0 meaning 0x10) and has `SBlk`
/// at offset 8; the list stops at a missing magic, at the block's end, or
/// after `left`.
pub open spec fn sblk_positions(tb: Seq<u8>, pos: int, left: nat) -> Seq<int>
    decreases left,
{
    if left == 0 || pos < 0 || pos + 16 > tb.len() || !(tb[pos + 8] == 0x53u8 && tb[pos + 9]
        == 0x42u8 && tb[pos + 10] == 0x6Cu8 && tb[pos + 11] == 0x6Bu8) {
        Seq::empty()
    } else {
        let total = le_u32(tb, pos);
        let next = pos + if total > 0 {
            total
        } else {
            0x10
        };
        if next >= tb.len() {
            seq![pos]
        } else {
            seq![pos] + sblk_positions(tb, next, (left - 1) as nat)
        }
    }
}

/// The SBlk at `pos` has its 32-byte sub-header inside the block.
pub open spec fn sblk_has_texture(tb: Seq<u8>, pos: int) -> bool {
    pos + 16 + 32 <= tb.len()
}

/// `t` is the texture described by the SBlk at `pos`.
pub open spec fn sblk_texture_read(tb: Seq<u8>, pos: int, t: SblkTexture) -> bool {
    let sub = pos + 16;
    let px_offset = le_u32(tb, pos + 4);
    &&& t.sub_count == le_u32(tb, sub)
    &&& t.name@ == tb.subrange(sub + 4, sub + 8)
    &&& t.width == le_u16(tb, sub + 16)
    &&& t.height == le_u16(tb, sub + 18)
    &&& t.pixels@ == (if px_offset < tb.len() {
        tb.subrange(px_offset, tb.len() as int)
    } else {
        Seq::empty()
    })
}

/// Which SBlk positions of a block describe a texture.
pub open spec fn texture_at(tb: Seq<u8>) -> spec_fn(int) -> bool {
    |p: int| sblk_has_texture(tb, p)
}

/// The SBlk positions of a block that describe a texture.
pub open spec fn sblk_texture_positions(tb: Seq<u8>, ps: Seq<int>) -> Seq<int> {
    ps.filter(texture_at(tb))
}

/// Read a gadget texture block: its count, flags and bpp words and the
/// textures of its first `min(count, 4)` SBlks (those whose sub-header fits);
/// `None` when the block is shorter than 16 bytes or holds no texture.
pub fn analyze_sblk(tb_data: &[u8]) -> (r: Option<(u32, u32, u32, Vec<SblkTexture>)>)
    ensures
        tb_data@.len() < 16 ==> r is None,
        tb_data@.len() >= 16 ==> {
            let count = le_u32(tb_data@, 0);
            let ps = sblk_texture_positions(
                tb_data@,
                sblk_positions(
                    tb_data@,
                    16,
                    (if count < 4 {
                        count
                    } else {
                        4
                    }) as nat,
                ),
            );
            if ps.len() == 0 {
                r is None
            } else {
                r matches Some((c, f, b, ts)) && c == count && f == le_u32(tb_data@, 4) && b
                    == le_u32(tb_data@, 8) && ts@.len() == ps.len() && forall|k: int|
                    0 <= k < ps.len() ==> sblk_texture_read(tb_data@, ps[k], #[trigger] ts@[k])
            }
        },
{
    if tb_data.len() < 16 {
        return None;
    }
    let count = r_u32(tb_data, 0);
    let flags = r_u32(tb_data, 4);
    let bpp = r_u32(tb_data, 8);
    let limit: u32 = if count < 4 {
        count
    } else {
        4
    };
    let ghost all = sblk_positions(tb_data@, 16, limit as nat);
    let ghost mut seen: Seq<int> = Seq::empty();
    let mut textures: Vec<SblkTexture> = Vec::new();
    let mut pos: usize = 16;
    let mut t: u32 = 0;
    assert(all =~= seen + sblk_positions(tb_data@, pos as int, (limit - t) as nat));
    while t < limit
        invariant_except_break
            all == seen + sblk_positions(tb_data@, pos as int, (limit - t) as nat),
        invariant
            t <= limit <= 4,
            pos <= tb_data@.len(),
            all == sblk_positions(tb_data@, 16, limit as nat),
            textures@.len() == sblk_texture_positions(tb_data@, seen).len(),
            forall|k: int|
                0 <= k < textures@.len() ==> sblk_texture_read(
                    tb_data@,
                    sblk_texture_positions(tb_data@, seen)[k],
                    #[trigger] textures@[k],
                ),
        ensures
            all == seen,
        decreases limit - t,
    {
        let ghost rest = sblk_positions(tb_data@, pos as int, (limit - t) as nat);
        if pos > tb_data.len() || tb_data.len() - pos < 16 {
            assert(rest.len() == 0);
            assert(all =~= seen);
            break;
        }
        if tb_data[pos + 8] != 0x53 || tb_data[pos + 9] != 0x42 || tb_data[pos + 10] != 0x6C
            || tb_data[pos + 11] != 0x6B {
            assert(rest.len() == 0);
            assert(all =~= seen);
            break;
        }
        let sblk_total = r_u32(tb_data, pos) as u64;
        let px_offset = r_u32(tb_data, pos + 4) as usize;
        let ghost old_seen = seen;
        proof {
            seen = seen.push(pos as int);
            assert(sblk_texture_positions(tb_data@, seen) == (if sblk_has_texture(tb_data@, pos as int) {
                sblk_texture_positions(tb_data@, old_seen).push(pos as int)
            } else {
                sblk_texture_positions(tb_data@, old_seen)
            })) by {
                let f = texture_at(tb_data@);
                reveal(Seq::filter);
                assert(seen.drop_last() =~= old_seen);
                assert(seen.last() == pos as int);
                assert(f(pos as int) == sblk_has_texture(tb_data@, pos as int));
                assert(seen.filter(f) == (if f(seen.last()) {
                    seen.drop_last().filter(f).push(seen.last())
                } else {
                    seen.drop_last().filter(f)
                }));
            }
        }
        if tb_data.len() - pos >= 48 {
            let sub_pos = pos + 16;
            let sub_count = r_u32(tb_data, sub_pos);
            let name = copy_range(tb_data, sub_pos + 4, sub_pos + 8);
            let w = r_u16(tb_data, sub_pos + 16) as u32;
            let h = r_u16(tb_data, sub_pos + 18) as u32;
            let pixels = if px_offset < tb_data.len() {
                copy_range(tb_data, px_offset, tb_data.len())
            } else {
                Vec::new()
            };
            let tex = SblkTexture { sub_count: sub_count as usize, name, width: w, height: h, pixels };
            let ghost k = textures@.len() as int;
            textures.push(tex);
            assert(textures@[k] == tex);
        }
        t += 1;
        let step: u64 = if sblk_total > 0 {
            sblk_total
        } else {
            0x10
        };
        if step >= (tb_data.len() - pos) as u64 {
            assert(rest == seq![pos as int]);
            assert(all =~= seen);
            break;
        }
        assert(rest == seq![pos as int] + sblk_positions(tb_data@, pos + step, (limit - t) as nat));
        assert(all =~= seen + sblk_positions(tb_data@, pos + step, (limit - t) as nat));
        pos = pos + step as usize;
    }
    if textures.len() == 0 {
        None
    } else {
        Some((count, flags, bpp, textures))
    }
}

} // verus!
