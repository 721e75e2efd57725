//! HUD textures: 2FIP blocks (32-byte header, 1024-byte swizzled palette,
//! one index byte per pixel), and the font atlas blocks that hold three of
//! them.

use vstd::prelude::*;
use crate::common::{le_u32, r_u32};
use crate::texture::{multiply_alphas, raw_palette_entry, scaled_alpha, unswizzle_palette, palette_swap};
use crate::wad::{copy_range, slice_range};

verus! {

/// The data holds a 2FIP texture: `2FIP` magic, width and height in 1..=1024
/// at 8 and 12, and the palette and all pixels after the 32-byte header.
pub open spec fn is_2fip(data: Seq<u8>) -> bool {
    let w = le_u32(data, 8);
    let h = le_u32(data, 12);
    &&& data.len() >= 32
    &&& data[0] == 0x32u8 && data[1] == 0x46u8 && data[2] == 0x49u8 && data[3] == 0x50u8
    &&& 0 < w <= 1024
    &&& 0 < h <= 1024
    &&& data.len() >= 0x20 + 1024 + w * h
}

/// Read a 2FIP texture: width, height, the raw palette (1024 bytes) and the
/// pixel indices (`w * h` bytes); nothing when `data` is not one (see
/// [`is_2fip`]).
pub fn read_2fip_header(data: &[u8]) -> (r: Option<(u32, u32, Vec<u8>, Vec<u8>)>)
    ensures
        !is_2fip(data@) ==> r is None,
        is_2fip(data@) ==> (r matches Some((w, h, pal, px)) && w == le_u32(data@, 8) && h
            == le_u32(data@, 12) && pal@ == data@.subrange(0x20, 0x420) && px@
            == data@.subrange(0x420, 0x420 + w * h)),
{
    if data.len() < 32 {
        return None;
    }
    if data[0] != 0x32 || data[1] != 0x46 || data[2] != 0x49 || data[3] != 0x50 {
        return None;
    }
    let w = r_u32(data, 8);
    let h = r_u32(data, 0x0C);
    if w == 0 || h == 0 || w > 1024 || h > 1024 {
        return None;
    }
    assert(w * h <= 1024 * 1024) by (nonlinear_arith)
        requires
            w <= 1024,
            h <= 1024,
    ;
    let px_off: usize = 0x20 + 1024;
    let area = (w * h) as usize;
    if data.len() < px_off + area {
        return None;
    }
    let pal_raw = copy_range(data, 0x20, 0x20 + 1024);
    let pixels = copy_range(data, px_off, px_off + area);
    Some((w, h, pal_raw, pixels))
}

/// Decode a raw 2FIP palette: colour `j` is raw entry `palette_swap(j)`
/// (black past the raw data), with its alpha scaled from the PS2 range.
pub fn parse_palette(pal_raw: &[u8]) -> (pal: Vec<[u8; 4]>)
    ensures
        pal@.len() == 256,
        forall|j: int|
            0 <= j < 256 ==> match raw_palette_entry(pal_raw@, palette_swap(j)) {
                Some(e) => {
                    &&& (#[trigger] pal@[j])[0] == e[0]
                    &&& pal@[j][1] == e[1]
                    &&& pal@[j][2] == e[2]
                    &&& pal@[j][3] == scaled_alpha(e[3])
                },
                None => pal@[j][0] == 0 && pal@[j][1] == 0 && pal@[j][2] == 0 && pal@[j][3] == 0,
            },
{
    let mut pal = unswizzle_palette(pal_raw);
    let ghost before = pal@;
    multiply_alphas(pal.as_mut_slice());
    proof {
        assert forall|j: int| 0 <= j < 256 implies match raw_palette_entry(pal_raw@, palette_swap(j)) {
            Some(e) => {
                &&& (#[trigger] pal@[j])[0] == e[0]
                &&& pal@[j][1] == e[1]
                &&& pal@[j][2] == e[2]
                &&& pal@[j][3] == scaled_alpha(e[3])
            },
            None => pal@[j][0] == 0 && pal@[j][1] == 0 && pal@[j][2] == 0 && pal@[j][3] == 0,
        } by {
            match raw_palette_entry(pal_raw@, palette_swap(j)) {
                Some(e) => {
                    assert(before[j]@ == e);
                    assert(before[j][0] == before[j]@[0]);
                    assert(before[j][1] == before[j]@[1]);
                    assert(before[j][2] == before[j]@[2]);
                    assert(before[j][3] == before[j]@[3]);
                },
                None => {
                    assert(scaled_alpha(0) == 0);
                },
            }
        }
    }
    pal
}

/// The three font-atlas HUD blocks: tag 0x20 and one of these indices.
pub open spec fn is_font_atlas(idx: u32, data: Seq<u8>) -> bool {
    le_u32(data, 0) == 0x20 && (idx == 226 || idx == 252)
}

/// A 2FIP texture found in a HUD block: page (for a font atlas), width,
/// height, raw palette and pixel indices.
pub struct HudTexture {
    pub page: Option<usize>,
    pub width: u32,
    pub height: u32,
    pub palette: Vec<u8>,
    pub pixels: Vec<u8>,
}

/// `t` is the 2FIP texture read from `data`.
pub open spec fn hud_texture_read(data: Seq<u8>, page: Option<usize>, t: HudTexture) -> bool {
    let w = le_u32(data, 8);
    let h = le_u32(data, 12);
    &&& is_2fip(data)
    &&& t.page == page
    &&& t.width == w
    &&& t.height == h
    &&& t.palette@ == data.subrange(0x20, 0x420)
    &&& t.pixels@ == data.subrange(0x420, 0x420 + w * h)
}

/// Offset of font-atlas page `p` (the words at 0x10, 0x14 and 0x18).
pub open spec fn atlas_page_offset(data: Seq<u8>, p: int) -> int {
    le_u32(data, 0x10 + 4 * p)
}

/// Font-atlas page `p` holds a 2FIP texture (from its offset on).
pub open spec fn atlas_page_present(data: Seq<u8>, p: int) -> bool {
    let to = atlas_page_offset(data, p);
    to + 32 <= data.len() && is_2fip(data.subrange(to, data.len() as int))
}

/// The 2FIP textures of HUD block `idx`: for a font atlas (see
/// [`is_font_atlas`]) long enough to hold its three page offsets, each page
/// that holds one, in page order; for another block, the block itself when
/// it is a 2FIP texture.
pub fn hud_block_textures(idx: u32, data: &[u8]) -> (r: Vec<HudTexture>)
    requires
        data@.len() >= 4,
    ensures
        is_font_atlas(idx, data@) && data@.len() < 0x1C ==> r@.len() == 0,
        is_font_atlas(idx, data@) && data@.len() >= 0x1C ==> {
            &&& r@.len() <= 3
            &&& forall|k: int|
                0 <= k < r@.len() ==> {
                    let p = (#[trigger] r@[k]).page->0 as int;
                    &&& r@[k].page is Some
                    &&& 0 <= p < 3
                    &&& atlas_page_present(data@, p)
                    &&& hud_texture_read(
                        data@.subrange(atlas_page_offset(data@, p), data@.len() as int),
                        Some(p as usize),
                        r@[k],
                    )
                }
            &&& forall|p: int|
                0 <= p < 3 && atlas_page_present(data@, p) ==> exists|k: int|
                    0 <= k < r@.len() && #[trigger] r@[k].page == Some(p as usize)
            &&& forall|k1: int, k2: int|
                0 <= k1 < k2 < r@.len() ==> (#[trigger] r@[k1]).page->0 < (#[trigger] r@[k2]).page->0
        },
        !is_font_atlas(idx, data@) ==> if is_2fip(data@) {
            r@.len() == 1 && hud_texture_read(data@, None, r@[0])
        } else {
            r@.len() == 0
        },
{
    let mut r: Vec<HudTexture> = Vec::new();
    let tag = r_u32(data, 0);
    if tag == 0x20 && (idx == 226 || idx == 252) {
        if data.len() < 0x1C {
            return r;
        }
        let mut p: usize = 0;
        while p < 3
            invariant
                p <= 3,
                data@.len() >= 0x1C,
                r@.len() <= p,
                forall|k: int|
                    0 <= k < r@.len() ==> {
                        let q = (#[trigger] r@[k]).page->0 as int;
                        &&& r@[k].page is Some
                        &&& 0 <= q < p
                        &&& atlas_page_present(data@, q)
                        &&& hud_texture_read(
                            data@.subrange(atlas_page_offset(data@, q), data@.len() as int),
                            Some(q as usize),
                            r@[k],
                        )
                    },
                forall|q: int|
                    0 <= q < p && atlas_page_present(data@, q) ==> exists|k: int|
                        0 <= k < r@.len() && #[trigger] r@[k].page == Some(q as usize),
                forall|k1: int, k2: int|
                    0 <= k1 < k2 < r@.len() ==> (#[trigger] r@[k1]).page->0 < (#[trigger] r@[k2]).page->0,
            decreases 3 - p,
        {
            let ghost old_r = r@;
            let to = r_u32(data, 0x10 + 4 * p) as u64;
            if to + 32 <= data.len() as u64 {
                let tdata = slice_range(data, to as usize, data.len());
                match read_2fip_header(tdata) {
                    Some((w, h, pal_raw, pixels)) => {
                        let ghost k = r@.len() as int;
                        let t = HudTexture { page: Some(p), width: w, height: h, palette: pal_raw, pixels };
                        r.push(t);
                        assert(r@[k] == t);
                    },
                    None => {},
                }
            }
            proof {
                assert forall|q: int|
                    0 <= q < p + 1 && atlas_page_present(data@, q) implies exists|k: int|
                    0 <= k < r@.len() && #[trigger] r@[k].page == Some(q as usize) by {
                    if q < p {
                        let k = choose|k: int|
                            0 <= k < old_r.len() && #[trigger] old_r[k].page == Some(q as usize);
                        assert(r@[k] == old_r[k]);
                    } else {
                        assert(r@[r@.len() - 1].page == Some(p));
                    }
                }
            }
            p += 1;
        }
        return r;
    }
    match read_2fip_header(data) {
        Some((w, h, pal_raw, pixels)) => {
            r.push(HudTexture { page: None, width: w, height: h, palette: pal_raw, pixels });
        },
        None => {},
    }
    r
}

} // verus!
