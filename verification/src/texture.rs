//! Texture decoding: PS2 GS pixel swizzle, palette swizzle, palettized pixels.

use vstd::prelude::*;
use crate::common::{le_u32, r_u32};

verus! {

/// Column and row of swizzled pixel `i` in a texture `w` pixels wide (RAC4 layout).
pub open spec fn rac4_xy(i: int, w: int) -> (int, int) {
    let s = i / (w * 2);
    let r = if s % 2 == 0 {
        s * 2
    } else {
        (s - 1) * 2 + 1
    };
    let q = (i % (w * 2)) / 32;
    let m = i % 4;
    let n = (i / 4) % 4;
    let o = i % 2;
    let p0 = (i / 16) % 2;
    let p = if (s / 2) % 2 == 1 {
        1 - p0
    } else {
        p0
    };
    let m2 = if o == 0 {
        (m + p) % 4
    } else {
        (m + 4 - p) % 4
    };
    (n + ((m2 + q * 4) * 4), r + (o * 2))
}

/// Linear index of swizzled pixel `i` (RAC4 layout, texture `w` pixels wide).
pub open spec fn rac4_index(i: int, w: int) -> int {
    let (x, y) = rac4_xy(i, w);
    (x % w) + (y * w)
}

/// The RAC4 index of `i` is computable in 32-bit arithmetic.
pub open spec fn rac4_in_range(i: int, w: int) -> bool {
    &&& 0 < w
    &&& w * 2 <= u32::MAX
    &&& rac4_index(i, w) <= u32::MAX
}

/// Map pixel index for RAC4 format (GS 8-bit block swizzle).
pub fn map_pixel_index_rac4(i: u32, width: u32) -> (r: u32)
    requires
        rac4_in_range(i as int, width as int),
    ensures
        r as int == rac4_index(i as int, width as int),
{
    let w2 = width * 2;
    let s = i / w2;
    assert(s * 2 <= i) by (nonlinear_arith)
        requires
            s == i / w2,
            w2 >= 2,
    ;
    let r = if (s % 2) == 0 {
        s * 2
    } else {
        (s - 1) * 2 + 1
    };
    let q = (i % w2) / 32;
    let m = i % 4;
    let n = (i / 4) % 4;
    let o = i % 2;
    let mut p = (i / 16) % 2;
    if ((s / 2) % 2) == 1 {
        p = 1 - p;
    }
    let m = if o == 0 {
        (m + p) % 4
    } else {
        (m + 4 - p) % 4
    };
    let x = n + ((m + q * 4) * 4);
    let ghost y_spec = r + o * 2;
    assert(y_spec <= y_spec * width) by (nonlinear_arith)
        requires
            width >= 1,
            y_spec >= 0,
    ;
    assert(x % width + y_spec * width <= u32::MAX);
    let y = r + (o * 2);
    (x % width) + (y * width)
}

/// Palette index after the GS CSM1 palette swizzle: bits 3 and 4 exchanged.
pub open spec fn palette_swap(index: int) -> int {
    index + 8 * ((index / 8) % 2) - 8 * ((index / 16) % 2)
}

/// Map palette index for GS palette swizzle (CSM=1 mode — swap bits 3 and 4).
pub fn map_palette_index(index: u32) -> (r: u32)
    ensures
        r as int == palette_swap(index as int),
{
    assert(((index & 16) >> 1) != (index & 8) ==> (index ^ 24) as int == index + 8 * ((index / 8)
        % 2) - 8 * ((index / 16) % 2)) by (bit_vector);
    assert(((index & 16) >> 1) == (index & 8) ==> (index / 8) % 2 == (index / 16) % 2) by (
    bit_vector);
    // Swap middle two bits: bit 3 (0x08) and bit 4 (0x10)
    if ((index & 16) >> 1) != (index & 8) {
        index ^ 0b00011000
    } else {
        index
    }
}

/// The palette swizzle undoes itself and keeps indices below 256.
pub proof fn lemma_palette_swap_involution(index: int)
    requires
        0 <= index,
    ensures
        palette_swap(palette_swap(index)) == index,
        index < 256 ==> 0 <= palette_swap(index) < 256,
{
}

/// Colour of texel `k` after an unswizzle: palette entry of the nibble at the
/// swizzled position, or `None` (transparent black) when out of range.
pub open spec fn unswizzled_entry(pixels: Seq<u8>, w: int, palette: Seq<[u8; 4]>, k: int) -> Option<
    [u8; 4],
> {
    let sw = rac4_index(k, w);
    let src = sw / 2;
    if src < pixels.len() {
        let idx = if sw % 2 == 0 {
            pixels[src] as int % 16
        } else {
            pixels[src] as int / 16
        };
        if idx < palette.len() {
            Some(palette[idx])
        } else {
            None
        }
    } else {
        None
    }
}

/// The four zero bytes of a transparent black texel.
pub open spec fn is_black(c: [u8; 4]) -> bool {
    c@ == seq![0u8, 0u8, 0u8, 0u8]
}

/// A vector of `n` black texels.
fn black_texels(n: usize) -> (v: Vec<[u8; 4]>)
    ensures
        v@.len() == n,
        forall|k: int| 0 <= k < n ==> is_black(#[trigger] v@[k]),
{
    let mut v: Vec<[u8; 4]> = Vec::new();
    let mut i: usize = 0;
    while i < n
        invariant
            i <= n,
            v@.len() == i,
            forall|k: int| 0 <= k < i ==> is_black(#[trigger] v@[k]),
        decreases n - i,
    {
        let z: [u8; 4] = [0, 0, 0, 0];
        assert(z@ =~= seq![0u8, 0u8, 0u8, 0u8]);
        v.push(z);
        i += 1;
    }
    v
}

/// Unswizzle pixels from GS memory (4-bit nibble-packed, PS2 GS swizzle).
pub fn unswizzle_pixels(pixels: &[u8], w: u32, h: u32, palette: &[[u8; 4]]) -> (out: Vec<[u8; 4]>)
    requires
        w * h <= u32::MAX,
        forall|k: int| 0 <= k < w * h ==> rac4_in_range(k, w as int),
    ensures
        out@.len() == w * h,
        forall|k: int|
            0 <= k < w * h ==> match unswizzled_entry(pixels@, w as int, palette@, k) {
                Some(c) => (#[trigger] out@[k]) == c,
                None => is_black(out@[k]),
            },
{
    let area = w * h;
    let mut out = black_texels(area as usize);
    let mut k: u32 = 0;
    while k < area
        invariant
            k <= area,
            area == w * h,
            forall|j: int| 0 <= j < w * h ==> rac4_in_range(j, w as int),
            out@.len() == area,
            forall|j: int|
                0 <= j < k ==> match unswizzled_entry(pixels@, w as int, palette@, j) {
                    Some(c) => (#[trigger] out@[j]) == c,
                    None => is_black(out@[j]),
                },
            forall|j: int| k <= j < area ==> is_black(#[trigger] out@[j]),
        decreases area - k,
    {
        let swizzled = map_pixel_index_rac4(k, w);
        let src_idx = (swizzled / 2) as usize;
        let shift: u8 = if swizzled % 2 == 0 {
            0
        } else {
            4
        };
        if src_idx < pixels.len() {
            let b = pixels[src_idx];
            let pal_idx = ((b >> shift) & 0x0F) as usize;
            assert((b >> 0u8) & 0x0F == b % 16 && (b >> 4u8) & 0x0F == b / 16) by (bit_vector);
            if pal_idx < palette.len() {
                out[k as usize] = palette[pal_idx];
            }
        }
        k += 1;
    }
    out
}

/// Entry `i` of a raw palette (4 bytes per colour), if present.
pub open spec fn raw_palette_entry(pal: Seq<u8>, i: int) -> Option<Seq<u8>> {
    if 4 * i + 4 <= pal.len() {
        Some(pal.subrange(4 * i, 4 * i + 4))
    } else {
        None
    }
}

/// Unswizzle palette data: colour `j` of the result is raw entry
/// `palette_swap(j)`, or black when the raw palette is too short.
pub fn unswizzle_palette(pal: &[u8]) -> (out: Vec<[u8; 4]>)
    ensures
        out@.len() == 256,
        forall|j: int|
            0 <= j < 256 ==> match raw_palette_entry(pal@, palette_swap(j)) {
                Some(e) => (#[trigger] out@[j])@ == e,
                None => is_black(out@[j]),
            },
{
    let mut out = black_texels(256);
    let mut i: usize = 0;
    while i < 256
        invariant
            i <= 256,
            out@.len() == 256,
            forall|j: int|
                0 <= j < 256 ==> (if palette_swap(j) < i {
                    match raw_palette_entry(pal@, palette_swap(j)) {
                        Some(e) => (#[trigger] out@[j])@ == e,
                        None => is_black(out@[j]),
                    }
                } else {
                    is_black(out@[j])
                }),
        decreases 256 - i,
    {
        let map = map_palette_index(i as u32) as usize;
        proof {
            lemma_palette_swap_involution(i as int);
        }
        if map < 256 {
            let off = i * 4;
            if off + 4 <= pal.len() {
                let e: [u8; 4] = [pal[off], pal[off + 1], pal[off + 2], pal[off + 3]];
                assert(e@ =~= pal@.subrange(off as int, off + 4));
                out[map] = e;
            }
        }
        proof {
            assert forall|j: int| 0 <= j < 256 implies (if palette_swap(j) < i + 1 {
                match raw_palette_entry(pal@, palette_swap(j)) {
                    Some(e) => (#[trigger] out@[j])@ == e,
                    None => is_black(out@[j]),
                }
            } else {
                is_black(out@[j])
            }) by {
                lemma_palette_swap_involution(j);
                if j == map {
                    assert(palette_swap(j) == i);
                } else {
                    if palette_swap(j) == i {
                        lemma_palette_swap_involution(i as int);
                    }
                }
            }
        }
        i += 1;
    }
    out
}

/// PS2 alpha (0-128) scaled to 0-255.
pub open spec fn scaled_alpha(a: u8) -> u8 {
    if 2 * a > 255 {
        255
    } else {
        (2 * a) as u8
    }
}

/// Scale PS2 alpha values (0-128) to standard alpha (0-255); RGB is left alone.
pub fn multiply_alphas(colors: &mut [[u8; 4]])
    ensures
        final(colors)@.len() == old(colors)@.len(),
        forall|k: int|
            0 <= k < old(colors)@.len() ==> {
                &&& (#[trigger] final(colors)@[k])[0] == old(colors)@[k][0]
                &&& final(colors)@[k][1] == old(colors)@[k][1]
                &&& final(colors)@[k][2] == old(colors)@[k][2]
                &&& final(colors)@[k][3] == scaled_alpha(old(colors)@[k][3])
            },
{
    let n = colors.len();
    let mut i: usize = 0;
    while i < n
        invariant
            i <= n,
            n == colors@.len(),
            colors@.len() == old(colors)@.len(),
            forall|k: int|
                0 <= k < i ==> {
                    &&& (#[trigger] colors@[k])[0] == old(colors)@[k][0]
                    &&& colors@[k][1] == old(colors)@[k][1]
                    &&& colors@[k][2] == old(colors)@[k][2]
                    &&& colors@[k][3] == scaled_alpha(old(colors)@[k][3])
                },
            forall|k: int| i <= k < n ==> #[trigger] colors@[k] == old(colors)@[k],
        decreases n - i,
    {
        let mut c = colors[i];
        let a = (c[3] as u32) * 2;
        c[3] = if a < 255 {
            a as u8
        } else {
            255
        };
        colors[i] = c;
        i += 1;
    }
}

/// Read a texture entry (16 bytes): tbp, tbw, psm, tw, th (low bits), and
/// three zero placeholders.
pub fn read_texture_entry(data: &[u8], offset: usize) -> (r: (u32, u32, u32, u32, u32, u32, u32, u32))
    requires
        offset + 12 <= data.len(),
    ensures
        r.0 as int == le_u32(data@, offset as int),
        r.1 as int == le_u32(data@, offset + 4),
        r.2 as int == le_u32(data@, offset + 8) % 0x40,
        r.3 as int == (le_u32(data@, offset + 8) / 0x400_0000) % 0x10,
        r.4 as int == (le_u32(data@, offset + 8) / 0x4000_0000) % 4,
        r.5 == 0 && r.6 == 0 && r.7 == 0,
{
    let w2 = r_u32(data, offset + 8);
    assert(w2 & 0x3F == w2 % 0x40 && (w2 >> 26) & 0x0F == (w2 / 0x400_0000) % 0x10 && (w2 >> 30)
        & 0x03 == (w2 / 0x4000_0000) % 4) by (bit_vector);
    (
        r_u32(data, offset),  // tbp
        r_u32(data, offset + 4),  // tbw
        r_u32(data, offset + 8) & 0x3F,  // psm
        (r_u32(data, offset + 8) >> 26) & 0x0F,  // tw
        (r_u32(data, offset + 8) >> 30) & 0x03,  // th (low bits)
        0,  // tcc placeholder
        0,  // mag placeholder
        0,  // min placeholder
    )
}

/// Read a GS RAM entry (texture data block): `size` bytes at `start`, both
/// read at `offset`; empty when the block lies outside the data.
pub fn read_gs_ram_entry(data: &[u8], offset: usize) -> (r: &[u8])
    requires
        offset + 8 <= data.len(),
    ensures
        ({
            let start = le_u32(data@, offset as int);
            let size = le_u32(data@, offset + 4);
            r@ == if start + size <= data@.len() {
                data@.subrange(start, start + size)
            } else {
                Seq::empty()
            }
        }),
{
    let size = r_u32(data, offset + 4);
    let start = r_u32(data, offset);
    if (start as u64) + (size as u64) <= data.len() as u64 {
        &data[start as usize..start as usize + size as usize]
    } else {
        &[]
    }
}

/// Palette colour for a palette index, or `None` when out of range.
pub open spec fn palette_lookup(pal: Seq<[u8; 4]>, idx: int) -> Option<[u8; 4]> {
    if idx < pal.len() {
        Some(pal[idx])
    } else {
        None
    }
}

/// Texel `k` of a linear 4-bit texture `w` wide: the nibble at `k / 2`
/// selected by the column's parity, looked up in the palette.
pub open spec fn pal4_entry(pixels: Seq<u8>, w: int, pal: Seq<[u8; 4]>, k: int) -> Option<[u8; 4]> {
    let src = k / 2;
    if src < pixels.len() {
        let idx = if (k % w) % 2 == 0 {
            pixels[src] as int % 16
        } else {
            pixels[src] as int / 16
        };
        palette_lookup(pal, idx)
    } else {
        None
    }
}

/// Decode a 4-bit palettized texture.
pub fn decode_pal4(pixels: &[u8], w: u32, h: u32, pal: &[[u8; 4]]) -> (out: Vec<[u8; 4]>)
    requires
        w * h <= u32::MAX,
    ensures
        out@.len() == w * h,
        forall|k: int|
            0 <= k < w * h ==> match pal4_entry(pixels@, w as int, pal@, k) {
                Some(c) => (#[trigger] out@[k]) == c,
                None => is_black(out@[k]),
            },
{
    let area = w * h;
    let mut out = black_texels(area as usize);
    let mut k: u32 = 0;
    while k < area
        invariant
            k <= area,
            area == w * h,
            out@.len() == area,
            forall|j: int|
                0 <= j < k ==> match pal4_entry(pixels@, w as int, pal@, j) {
                    Some(c) => (#[trigger] out@[j]) == c,
                    None => is_black(out@[j]),
                },
            forall|j: int| k <= j < area ==> is_black(#[trigger] out@[j]),
        decreases area - k,
    {
        let x = k % w;
        let src_idx = (k / 2) as usize;
        let shift: u8 = if x % 2 == 0 {
            0
        } else {
            4
        };
        if src_idx < pixels.len() {
            let b = pixels[src_idx];
            let pal_idx = ((b >> shift) & 0x0F) as usize;
            assert((b >> 0u8) & 0x0F == b % 16 && (b >> 4u8) & 0x0F == b / 16) by (bit_vector);
            if pal_idx < pal.len() {
                out[k as usize] = pal[pal_idx];
            }
        }
        k += 1;
    }
    out
}

/// Decode an 8-bit palettized texture.
pub fn decode_pal8(pixels: &[u8], w: u32, h: u32, pal: &[[u8; 4]]) -> (out: Vec<[u8; 4]>)
    requires
        w * h <= u32::MAX,
    ensures
        out@.len() == w * h,
        forall|k: int|
            0 <= k < w * h ==> match (if k < pixels@.len() {
                palette_lookup(pal@, pixels@[k] as int)
            } else {
                None
            }) {
                Some(c) => (#[trigger] out@[k]) == c,
                None => is_black(out@[k]),
            },
{
    let area = (w * h) as usize;
    let mut out = black_texels(area);
    let mut i: usize = 0;
    while i < area
        invariant
            i <= area,
            area == w * h,
            out@.len() == area,
            forall|j: int|
                0 <= j < i ==> match (if j < pixels@.len() {
                    palette_lookup(pal@, pixels@[j] as int)
                } else {
                    None
                }) {
                    Some(c) => (#[trigger] out@[j]) == c,
                    None => is_black(out@[j]),
                },
            forall|j: int| i <= j < area ==> is_black(#[trigger] out@[j]),
        decreases area - i,
    {
        if i < pixels.len() {
            let pal_idx = pixels[i] as usize;
            if pal_idx < pal.len() {
                out[i] = pal[pal_idx];
            }
        }
        i += 1;
    }
    out
}

/// Every pixel of a `w`×`h` texture has a computable RAC4 index, and indices
/// inside the texture are inside `pixels`.
pub open spec fn pif8_map_ok(pixels: Seq<u8>, w: int, h: int) -> bool {
    forall|k: int|
        0 <= k < w * h ==> #[trigger] rac4_in_range(k, w) && (rac4_index(k, w) < w * h
            ==> rac4_index(k, w) < pixels.len())
}

/// PS2 GS 8-bit texture unswizzle: byte `i` of the result is the byte at the
/// RAC4-swizzled position of `i` (0 when that position is outside the texture).
pub fn unswizzle_pif8(pixels: &[u8], w: u32, h: u32) -> (out: Vec<u8>)
    requires
        w * h <= u32::MAX,
        pif8_map_ok(pixels@, w as int, h as int),
    ensures
        out@.len() == w * h,
        forall|k: int|
            0 <= k < w * h ==> #[trigger] out@[k] == (if rac4_index(k, w as int) < w * h {
                pixels@[rac4_index(k, w as int)]
            } else {
                0u8
            }),
{
    let area = (w * h) as usize;
    let mut out: Vec<u8> = Vec::new();
    let mut i: usize = 0;
    while i < area
        invariant
            i <= area,
            area == w * h,
            w * h <= u32::MAX,
            pif8_map_ok(pixels@, w as int, h as int),
            out@.len() == i,
            forall|k: int|
                0 <= k < i ==> #[trigger] out@[k] == (if rac4_index(k, w as int) < w * h {
                    pixels@[rac4_index(k, w as int)]
                } else {
                    0u8
                }),
        decreases area - i,
    {
        assert(rac4_in_range(i as int, w as int));
        let map = map_pixel_index_rac4(i as u32, w) as usize;
        if map < area {
            out.push(pixels[map]);
        } else {
            out.push(0);
        }
        i += 1;
    }
    out
}

/// Header size of a PIF8 texture with `area` pixels in `len` bytes: 0x20
/// when header, palette and pixels fit, else 0x10 when they fit with the
/// short header, else none.
pub open spec fn pif8_header_size(len: int, area: int) -> Option<int> {
    if 0x20 + 1024 + area <= len {
        Some(0x20)
    } else if 0x10 + 1024 + area <= len {
        Some(0x10)
    } else {
        None
    }
}

/// Component `c` of colour `j` of a decoded PIF8 palette (1024 raw bytes at
/// `pal_start`): GS palette swizzle, then alpha scaling.
pub open spec fn pif8_palette_component(data: Seq<u8>, pal_start: int, j: int, c: int) -> u8 {
    let v = data[pal_start + 4 * palette_swap(j) + c];
    if c == 3 {
        scaled_alpha(v)
    } else {
        v
    }
}

/// `2FIP` or `PIF2` at the start of the data.
pub open spec fn has_pif_magic(data: Seq<u8>) -> bool {
    data.len() >= 4 && ((data[0] == 0x32u8 && data[1] == 0x46u8 && data[2] == 0x49u8 && data[3]
        == 0x50u8) || (data[0] == 0x50u8 && data[1] == 0x49u8 && data[2] == 0x46u8 && data[3]
        == 0x32u8))
}

/// `r` is the decoding of the PIF8 (2FIP) texture `data`: `(width, height,
/// RGBA bytes)`, or `None` when the header is not a PIF8 one or the data is
/// too short.
pub open spec fn pif8_decoded(data: Seq<u8>, r: Option<(u32, u32, Vec<u8>)>) -> bool {
    ({
            let w = le_u32(data, 8);
            let h = le_u32(data, 12);
            match r {
                None => data.len() < 16 || !has_pif_magic(data) || w == 0 || h == 0 || w > 1024
                    || h > 1024 || pif8_header_size(data.len() as int, w * h) is None,
                Some((rw, rh, rgba)) => {
                    &&& data.len() >= 16
                    &&& has_pif_magic(data)
                    &&& rw == w && rh == h
                    &&& 0 < w <= 1024 && 0 < h <= 1024
                    &&& pif8_header_size(data.len() as int, w * h) is Some
                    &&& rgba@.len() == 4 * (w * h)
                    &&& forall|i: int, c: int|
                        0 <= i < w * h && 0 <= c < 4 ==> {
                            let hdr = pif8_header_size(data.len() as int, w * h)->0;
                            #[trigger] rgba@[4 * i + c] == pif8_palette_component(
                                data,
                                hdr,
                                data[hdr + 1024 + i] as int,
                                c,
                            )
                        }
                },
            }
        })
}

/// Decode a PIF8 (2FIP) texture (see [`pif8_decoded`]).
pub fn decode_pif8(data: &[u8]) -> (r: Option<(u32, u32, Vec<u8>)>)
    ensures
        pif8_decoded(data@, r),
{
    if data.len() < 16 {
        return None;
    }
    let is_2fip = data[0] == 0x32 && data[1] == 0x46 && data[2] == 0x49 && data[3] == 0x50;
    let is_pif2 = data[0] == 0x50 && data[1] == 0x49 && data[2] == 0x46 && data[3] == 0x32;
    if !is_2fip && !is_pif2 {
        return None;
    }
    let w = r_u32(data, 8);
    let h = r_u32(data, 12);
    if w == 0 || h == 0 || w > 1024 || h > 1024 {
        return None;
    }
    assert(w * h <= 1024 * 1024) by (nonlinear_arith)
        requires
            w <= 1024,
            h <= 1024,
    ;
    let area = (w * h) as usize;
    // Standard header is 0x20 bytes; a 0x10 header is tried when that does not fit
    let mut hdr_size: usize = 0x20;
    if 0x20 + 1024 + area > data.len() {
        let tries: [usize; 4] = [0x10, 0x20, 0x30, 0x40];
        let mut t: usize = 0;
        while t < 4
            invariant_except_break
                hdr_size == 0x20,
            invariant
                t <= 4,
                tries@ == seq![0x10usize, 0x20, 0x30, 0x40],
                area == w * h,
                area <= 1024 * 1024,
                t > 0 ==> 0x10 + 1024 + area > data@.len(),
            ensures
                (hdr_size == 0x10 && 0x10 + 1024 + area <= data@.len()) || (hdr_size == 0x20 && 0x10
                    + 1024 + area > data@.len()),
            decreases 4 - t,
        {
            let try_hdr = tries[t];
            if try_hdr + 1024 + area <= data.len() {
                hdr_size = try_hdr;
                break;
            }
            t += 1;
        }
    }
    let pal_start = hdr_size;
    let idx_start = pal_start + 1024;
    if idx_start + area > data.len() {
        return None;
    }
    // Read palette (RGBA, PS2 format: alpha 0-128)
    let mut palette: Vec<[u8; 4]> = Vec::new();
    let mut i: usize = 0;
    while i < 256
        invariant
            i <= 256,
            pal_start + 1024 <= data.len(),
            palette@.len() == i,
            forall|k: int|
                0 <= k < i ==> (#[trigger] palette@[k])@ == data@.subrange(
                    pal_start + 4 * k,
                    pal_start + 4 * k + 4,
                ),
        decreases 256 - i,
    {
        let pofs = pal_start + i * 4;
        let e: [u8; 4] = [data[pofs], data[pofs + 1], data[pofs + 2], data[pofs + 3]];
        assert(e@ =~= data@.subrange(pofs as int, pofs + 4));
        palette.push(e);
        i += 1;
    }
    // Apply GS palette bit-swap (CSM=1) then scale alpha
    let pal_bytes = flatten_palette(&palette);
    assert(pal_bytes@ =~= data@.subrange(pal_start as int, pal_start + 1024)) by {
        assert forall|b: int| 0 <= b < 1024 implies pal_bytes@[b] == data@[pal_start + b] by {
            assert(palette@[b / 4]@ == data@.subrange(
                pal_start + 4 * (b / 4),
                pal_start + 4 * (b / 4) + 4,
            ));
        }
    }
    let mut palette = unswizzle_palette(pal_bytes.as_slice());
    let ghost swizzled = palette@;
    multiply_alphas(palette.as_mut_slice());
    assert forall|j: int, c: int| 0 <= j < 256 && 0 <= c < 4 implies #[trigger] palette@[j][c]
        == pif8_palette_component(data@, pal_start as int, j, c) by {
        lemma_palette_swap_involution(j);
        let sj = palette_swap(j);
        assert(raw_palette_entry(pal_bytes@, sj) == Some(pal_bytes@.subrange(4 * sj, 4 * sj + 4)));
        assert(swizzled[j]@ == pal_bytes@.subrange(4 * sj, 4 * sj + 4));
        assert(swizzled[j][c] == swizzled[j]@[c]);
        assert(pal_bytes@.subrange(4 * sj, 4 * sj + 4)[c] == data@[pal_start + 4 * sj + c]);
    }
    // Pixel indices are linear row-major
    let mut rgba: Vec<u8> = Vec::new();
    let mut k: usize = 0;
    while k < area
        invariant
            k <= area,
            area == w * h,
            idx_start == pal_start + 1024,
            idx_start + area <= data.len(),
            palette@.len() == 256,
            forall|j: int, c: int|
                0 <= j < 256 && 0 <= c < 4 ==> #[trigger] palette@[j][c]
                    == pif8_palette_component(data@, pal_start as int, j, c),
            rgba@.len() == 4 * k,
            forall|j: int, c: int|
                0 <= j < k && 0 <= c < 4 ==> #[trigger] rgba@[4 * j + c] == pif8_palette_component(
                    data@,
                    pal_start as int,
                    data@[idx_start + j] as int,
                    c,
                ),
        decreases area - k,
    {
        let idx = data[idx_start + k] as usize;
        let col = palette[idx];
        rgba.push(col[0]);
        rgba.push(col[1]);
        rgba.push(col[2]);
        rgba.push(col[3]);
        k += 1;
    }
    proof {
        let len = data@.len() as int;
        assert(pif8_header_size(len, w * h) == Some(pal_start as int));
        assert(has_pif_magic(data@));
        assert(rgba@.len() == 4 * (w * h));
    }
    Some((w, h, rgba))
}

/// Concatenated bytes of a list of colours.
fn flatten_palette(colors: &Vec<[u8; 4]>) -> (v: Vec<u8>)
    ensures
        v@.len() == 4 * colors@.len(),
        forall|b: int| 0 <= b < v@.len() ==> #[trigger] v@[b] == colors@[b / 4][b % 4],
{
    let mut v: Vec<u8> = Vec::new();
    let mut i: usize = 0;
    while i < colors.len()
        invariant
            i <= colors@.len(),
            v@.len() == 4 * i,
            forall|b: int| 0 <= b < v@.len() ==> #[trigger] v@[b] == colors@[b / 4][b % 4],
        decreases colors@.len() - i,
    {
        let c = colors[i];
        v.push(c[0]);
        v.push(c[1]);
        v.push(c[2]);
        v.push(c[3]);
        i += 1;
    }
    v
}

/// `r` is the decoding of a raw RGBA texture with a (w, h) header:
/// `(width, height, RGBA bytes)`, or `None` when a dimension is 0 or above
/// 2048 or the data is too short.
pub open spec fn raw_rgba_decoded(data: Seq<u8>, r: Option<(u32, u32, Vec<u8>)>) -> bool {
    ({
            let w = le_u32(data, 0);
            let h = le_u32(data, 4);
            match r {
                None => data.len() < 8 || w == 0 || h == 0 || w > 2048 || h > 2048 || data.len()
                    < 8 + w * h * 4,
                Some((rw, rh, rgba)) => data.len() >= 8 && rw == w && rh == h && 0 < w <= 2048 && 0
                    < h <= 2048 && 8 + w * h * 4 <= data.len() && rgba@ == data.subrange(
                    8,
                    8 + w * h * 4,
                ),
            }
        })
}

/// Decode a raw RGBA texture with a (w, h) header (see [`raw_rgba_decoded`]).
pub fn decode_raw_rgba(data: &[u8]) -> (r: Option<(u32, u32, Vec<u8>)>)
    ensures
        raw_rgba_decoded(data@, r),
{
    if data.len() < 8 {
        return None;
    }
    let w = r_u32(data, 0);
    let h = r_u32(data, 4);
    if w == 0 || h == 0 || w > 2048 || h > 2048 {
        return None;
    }
    assert(w * h * 4 <= 2048 * 2048 * 4) by (nonlinear_arith)
        requires
            w <= 2048,
            h <= 2048,
    ;
    let expected = (w as usize) * (h as usize) * 4;
    if data.len() < 8 + expected {
        return None;
    }
    let mut v: Vec<u8> = Vec::new();
    let mut i: usize = 8;
    while i < 8 + expected
        invariant
            8 <= i <= 8 + expected,
            8 + expected <= data.len(),
            v@ == data@.subrange(8, i as int),
        decreases 8 + expected - i,
    {
        v.push(data[i]);
        i += 1;
        assert(v@ =~= data@.subrange(8, i as int));
    }
    Some((w, h, v))
}

} // verus!
