//! Level textures: the palettized 8-bit textures that the six texture tables
//! of a level's core header list, with their pixels (in core data or, for
//! moby textures kept in GS memory, in the GS RAM dump) and their palettes
//! (256 BGRA colours in GS RAM).
//!
//! Header values are signed 32-bit; used as byte offsets they are taken as
//! 64-bit unsigned values (two's complement), and sums of offsets are exact.

use vstd::prelude::*;
use vstd::string::StringSliceAdditionalSpecFns;
use crate::common::{le_u16, le_u32, r_s16, r_s32, signed16, signed32};
use crate::level_core::{core_arrays_whole, core_field_offset};
use crate::texture::{lemma_palette_swap_involution, map_palette_index, palette_swap, scaled_alpha};
use crate::wad::copy_range;

verus! {

/// The texture tables of the level core header, in header order.
#[derive(Debug, Clone, Copy, PartialEq, Eq, Structural)]
pub enum TextureCategory {
    Tfrag,
    Moby,
    Tie,
    Shrub,
    Part,
    Fx,
}

/// Position of a category among the six tables.
pub open spec fn category_index(c: TextureCategory) -> int {
    match c {
        TextureCategory::Tfrag => 0,
        TextureCategory::Moby => 1,
        TextureCategory::Tie => 2,
        TextureCategory::Shrub => 3,
        TextureCategory::Part => 4,
        TextureCategory::Fx => 5,
    }
}

/// The category of table `k`.
pub open spec fn category_at(k: int) -> TextureCategory {
    if k == 0 {
        TextureCategory::Tfrag
    } else if k == 1 {
        TextureCategory::Moby
    } else if k == 2 {
        TextureCategory::Tie
    } else if k == 3 {
        TextureCategory::Shrub
    } else if k == 4 {
        TextureCategory::Part
    } else {
        TextureCategory::Fx
    }
}

/// The name of a category.
pub open spec fn category_name(c: TextureCategory) -> Seq<char> {
    match c {
        TextureCategory::Tfrag => "tfrag"@,
        TextureCategory::Moby => "moby"@,
        TextureCategory::Tie => "tie"@,
        TextureCategory::Shrub => "shrub"@,
        TextureCategory::Part => "part"@,
        TextureCategory::Fx => "fx"@,
    }
}

/// The name of a category, as ASCII bytes.
pub open spec fn category_name_bytes(c: TextureCategory) -> Seq<u8> {
    match c {
        TextureCategory::Tfrag => seq![0x74u8, 0x66, 0x72, 0x61, 0x67],
        TextureCategory::Moby => seq![0x6du8, 0x6f, 0x62, 0x79],
        TextureCategory::Tie => seq![0x74u8, 0x69, 0x65],
        TextureCategory::Shrub => seq![0x73u8, 0x68, 0x72, 0x75, 0x62],
        TextureCategory::Part => seq![0x70u8, 0x61, 0x72, 0x74],
        TextureCategory::Fx => seq![0x66u8, 0x78],
    }
}

fn bytes_equal(a: &[u8], b: &Vec<u8>) -> (r: bool)
    ensures
        r == (a@ == b@),
{
    if a.len() != b.len() {
        return false;
    }
    let mut i: usize = 0;
    while i < a.len()
        invariant
            a@.len() == b@.len(),
            i <= a@.len(),
            forall|j: int| 0 <= j < i ==> a@[j] == b@[j],
        decreases a@.len() - i,
    {
        if a[i] != b[i] {
            return false;
        }
        i += 1;
    }
    assert(a@ =~= b@);
    true
}

impl TextureCategory {
    /// The category's name ("tfrag", "moby", "tie", "shrub", "part", "fx").
    pub fn name(&self) -> (s: &'static str)
        ensures
            s@ == category_name(*self),
    {
        match self {
            TextureCategory::Tfrag => "tfrag",
            TextureCategory::Moby => "moby",
            TextureCategory::Tie => "tie",
            TextureCategory::Shrub => "shrub",
            TextureCategory::Part => "part",
            TextureCategory::Fx => "fx",
        }
    }

    /// The category with this name, if any.
    pub fn from_name(name: &str) -> (r: Option<TextureCategory>)
        ensures
            match r {
                Some(c) => name.spec_bytes() == category_name_bytes(c),
                None => forall|c: TextureCategory|
                    name.spec_bytes() != #[trigger] category_name_bytes(c),
            },
    {
        let b = name.as_bytes();
        if bytes_equal(b, &vec![0x74u8, 0x66, 0x72, 0x61, 0x67]) {
            Some(TextureCategory::Tfrag)
        } else if bytes_equal(b, &vec![0x6du8, 0x6f, 0x62, 0x79]) {
            Some(TextureCategory::Moby)
        } else if bytes_equal(b, &vec![0x74u8, 0x69, 0x65]) {
            Some(TextureCategory::Tie)
        } else if bytes_equal(b, &vec![0x73u8, 0x68, 0x72, 0x75, 0x62]) {
            Some(TextureCategory::Shrub)
        } else if bytes_equal(b, &vec![0x70u8, 0x61, 0x72, 0x74]) {
            Some(TextureCategory::Part)
        } else if bytes_equal(b, &vec![0x66u8, 0x78]) {
            Some(TextureCategory::Fx)
        } else {
            proof {
                assert forall|c: TextureCategory|
                    name.spec_bytes() != #[trigger] category_name_bytes(c) by {
                    match c {
                        TextureCategory::Tfrag => {},
                        TextureCategory::Moby => {},
                        TextureCategory::Tie => {},
                        TextureCategory::Shrub => {},
                        TextureCategory::Part => {},
                        TextureCategory::Fx => {},
                    }
                }
            }
            None
        }
    }
}

/// A signed header value taken as a 64-bit unsigned offset.
pub open spec fn usz(v: int) -> int {
    if v >= 0 {
        v
    } else {
        v + 0x1_0000_0000_0000_0000
    }
}

/// Sum modulo 2^64 (an explicitly wrapping offset addition).
pub open spec fn wrap64(x: int) -> int {
    x % 0x1_0000_0000_0000_0000
}

/// The signed 32-bit header field at `off`, or 0 where the header ends first.
pub open spec fn core_s32(index: Seq<u8>, off: int) -> int {
    if off + 4 <= index.len() {
        signed32(le_u32(index, off))
    } else {
        0
    }
}

/// The offset half of the array field at `off`, or 0 where the header ends first.
pub open spec fn core_ar_offset(index: Seq<u8>, off: int) -> int {
    if off + 4 <= index.len() {
        signed32(le_u32(index, off + 4))
    } else {
        0
    }
}

/// Header offset of texture table `k` (0x30, 0x38, ..., 0x58).
pub open spec fn table_field(k: int) -> int {
    0x30 + 8 * k
}

/// GS RAM address of the moby texture stash: the address word of the first
/// GS RAM entry after the `gs_ram` ones (those are 16 bytes apart; the stash
/// entries are 20 bytes long), or -1 when there is no stash or that entry
/// lies past the end of the index.
pub open spec fn moby_stash_addr(index: Seq<u8>) -> int {
    let cnt = usz(core_s32(index, 0x00));
    let eo = usz(core_ar_offset(index, 0x00)) + cnt * 16;
    if usz(core_s32(index, 0x80)) > 0 && eo + 0x14 <= index.len() {
        signed32(le_u32(index, eo + 12))
    } else {
        -1
    }
}

/// Byte offset of entry `i` of texture table `k` in the index.
pub open spec fn entry_at(index: Seq<u8>, k: int, i: int) -> int {
    usz(core_ar_offset(index, table_field(k))) + 16 * i
}

pub open spec fn tex_data_off(index: Seq<u8>, k: int, i: int) -> int {
    signed32(le_u32(index, entry_at(index, k, i)))
}

pub open spec fn tex_w(index: Seq<u8>, k: int, i: int) -> int {
    signed16(le_u16(index, entry_at(index, k, i) + 4))
}

pub open spec fn tex_h(index: Seq<u8>, k: int, i: int) -> int {
    signed16(le_u16(index, entry_at(index, k, i) + 6))
}

pub open spec fn tex_type(index: Seq<u8>, k: int, i: int) -> int {
    signed16(le_u16(index, entry_at(index, k, i) + 8))
}

pub open spec fn tex_pal(index: Seq<u8>, k: int, i: int) -> int {
    signed16(le_u16(index, entry_at(index, k, i) + 10))
}

/// GS RAM byte address of palette number `pal` (negative numbers mean 0).
pub open spec fn pal_addr(pal: int) -> int {
    (if pal > 0 {
        pal
    } else {
        0
    }) * 0x100
}

/// Where the pixels of an entry are: `(in GS RAM, start)`. Types 1, 2, 3
/// are in core data after the textures base offset; type 0 in GS RAM after
/// the moby stash address (none without a stash); other types nowhere.
pub open spec fn tex_source(index: Seq<u8>, k: int, i: int) -> Option<(bool, int)> {
    let typ = tex_type(index, k, i);
    let off = usz(tex_data_off(index, k, i));
    if typ == 1 || typ == 2 || typ == 3 {
        Some((false, wrap64(usz(core_s32(index, 0x60)) + off)))
    } else if typ == 0 && moby_stash_addr(index) >= 0 {
        Some((true, wrap64(moby_stash_addr(index) + off)))
    } else {
        None
    }
}

/// Entry `i` of table `k` yields a texture: its size is within 1..=1024
/// both ways, its pixels and its palette lie in the data.
pub open spec fn tex_kept(index: Seq<u8>, decomp: Seq<u8>, gs: Seq<u8>, k: int, i: int) -> bool {
    let w = tex_w(index, k, i);
    let h = tex_h(index, k, i);
    &&& 0 < w <= 1024
    &&& 0 < h <= 1024
    &&& tex_source(index, k, i) matches Some((in_gs, start)) && start + w * h <= (if in_gs {
        gs.len()
    } else {
        decomp.len()
    })
    &&& pal_addr(tex_pal(index, k, i)) + 1024 <= gs.len()
}

/// Colour `j` of the palette at `base` in GS RAM: the BGRA entry at the
/// swizzled index, as RGBA with the alpha doubled (at most 255).
pub open spec fn is_gs_color(c: [u8; 4], gs: Seq<u8>, base: int, j: int) -> bool {
    let po = base + 4 * palette_swap(j);
    &&& c[0] == gs[po + 2]
    &&& c[1] == gs[po + 1]
    &&& c[2] == gs[po]
    &&& c[3] == scaled_alpha(gs[po + 3])
}

/// The 256-colour palette at `base` in GS RAM.
pub open spec fn is_gs_palette(p: Seq<[u8; 4]>, gs: Seq<u8>, base: int) -> bool {
    &&& p.len() == 256
    &&& forall|j: int| 0 <= j < 256 ==> is_gs_color(#[trigger] p[j], gs, base, j)
}

/// A decoded texture: where it is listed, its header values, its 8-bit
/// pixels (`width * height`, row-major) and its RGBA palette.
pub struct LevelTexture {
    pub category: TextureCategory,
    pub index: u64,
    pub width: i32,
    pub height: i32,
    pub data_off: i32,
    pub pal: i32,
    pub kind: i32,
    pub pixels: Vec<u8>,
    pub palette: Vec<[u8; 4]>,
}

/// `t` is entry `i` of table `k`, decoded.
pub open spec fn tex_matches(
    t: LevelTexture,
    index: Seq<u8>,
    decomp: Seq<u8>,
    gs: Seq<u8>,
    k: int,
    i: int,
) -> bool {
    let w = tex_w(index, k, i);
    let h = tex_h(index, k, i);
    &&& t.category == category_at(k)
    &&& t.index == i
    &&& t.width == w
    &&& t.height == h
    &&& t.data_off == tex_data_off(index, k, i)
    &&& t.pal == tex_pal(index, k, i)
    &&& t.kind == tex_type(index, k, i)
    &&& tex_source(index, k, i) matches Some((in_gs, start)) && t.pixels@ == (if in_gs {
        gs
    } else {
        decomp
    }).subrange(start, start + w * h)
    &&& is_gs_palette(t.palette@, gs, pal_addr(tex_pal(index, k, i)))
}

/// Number of entries of table `k` read: its count, cut where the next
/// 16-byte entry would run past the index.
pub open spec fn table_len(index: Seq<u8>, k: int) -> int {
    let cnt = usz(core_s32(index, table_field(k)));
    let off = usz(core_ar_offset(index, table_field(k)));
    let fit = if off <= index.len() {
        (index.len() - off) / 16
    } else {
        0
    };
    if cnt < fit {
        cnt
    } else {
        fit
    }
}

/// Table `k` is decoded: its count and offset are non-zero and it passes
/// the category filter.
pub open spec fn table_selected(index: Seq<u8>, k: int, filter: Option<TextureCategory>) -> bool {
    &&& core_s32(index, table_field(k)) != 0
    &&& core_ar_offset(index, table_field(k)) != 0
    &&& (filter matches Some(c) ==> c == category_at(k))
}

/// The (table, entry) pairs that yield textures among the first `n`
/// entries of table `k`.
pub open spec fn kept_entries(index: Seq<u8>, decomp: Seq<u8>, gs: Seq<u8>, k: int, n: nat) -> Seq<
    (int, int),
>
    decreases n,
{
    if n == 0 {
        Seq::empty()
    } else {
        let prev = kept_entries(index, decomp, gs, k, (n - 1) as nat);
        if tex_kept(index, decomp, gs, k, n - 1) {
            prev.push((k, n - 1))
        } else {
            prev
        }
    }
}

/// The (table, entry) pairs of the decoded textures of tables `0..m`, in order.
pub open spec fn level_texture_keys(
    index: Seq<u8>,
    decomp: Seq<u8>,
    gs: Seq<u8>,
    filter: Option<TextureCategory>,
    m: nat,
) -> Seq<(int, int)>
    decreases m,
{
    if m == 0 {
        Seq::empty()
    } else {
        let prev = level_texture_keys(index, decomp, gs, filter, (m - 1) as nat);
        if table_selected(index, m - 1, filter) {
            prev + kept_entries(index, decomp, gs, m - 1, table_len(index, m - 1) as nat)
        } else {
            prev
        }
    }
}

pub(crate) fn usz_of(v: i32) -> (r: u64)
    ensures
        r as int == usz(v as int),
{
    if v >= 0 {
        v as u64
    } else {
        let m: i64 = -(v as i64) - 1;
        0xFFFF_FFFF_FFFF_FFFFu64 - (m as u64)
    }
}

fn read_core_s32(index: &[u8], off: usize) -> (r: i32)
    ensures
        r as int == core_s32(index@, off as int),
{
    if off <= index.len() && index.len() - off >= 4 {
        r_s32(index, off)
    } else {
        0
    }
}

fn read_core_ar_offset(index: &[u8], off: usize) -> (r: i32)
    requires
        off + 4 <= index@.len() ==> off + 8 <= index@.len(),
    ensures
        r as int == core_ar_offset(index@, off as int),
{
    if off <= index.len() && index.len() - off >= 4 {
        r_s32(index, off + 4)
    } else {
        0
    }
}

fn find_moby_stash_addr(index: &[u8]) -> (r: i64)
    requires
        core_arrays_whole(index@.len() as int),
    ensures
        r as int == moby_stash_addr(index@),
{
    assert(core_field_offset(0) == 0);
    let cnt = usz_of(read_core_s32(index, 0)) as u128;
    let off = usz_of(read_core_ar_offset(index, 0)) as u128;
    let stash = usz_of(read_core_s32(index, 0x80));
    assert(cnt < 0x1_0000_0000_0000_0000 && off < 0x1_0000_0000_0000_0000);
    let eo = off + cnt * 16;
    if stash > 0 && eo + 0x14 <= index.len() as u128 {
        r_s32(index, (eo + 12) as usize) as i64
    } else {
        -1
    }
}

/// The palette at `base` in GS RAM, as RGBA (see [`is_gs_color`]).
pub fn gs_palette(gs: &[u8], base: usize) -> (p: Vec<[u8; 4]>)
    requires
        base + 1024 <= gs@.len(),
    ensures
        is_gs_palette(p@, gs@, base as int),
{
    let glen = gs.len();
    let mut p: Vec<[u8; 4]> = Vec::new();
    let mut j: u32 = 0;
    while j < 256
        invariant
            j <= 256,
            glen == gs@.len(),
            base + 1024 <= gs@.len(),
            p@.len() == j,
            forall|q: int| 0 <= q < j ==> is_gs_color(#[trigger] p@[q], gs@, base as int, q),
        decreases 256 - j,
    {
        let s = map_palette_index(j);
        proof {
            lemma_palette_swap_involution(j as int);
        }
        let po = base + 4 * (s as usize);
        let a = gs[po + 3] as u32 * 2;
        let c: [u8; 4] = [gs[po + 2], gs[po + 1], gs[po], if a < 255 {
            a as u8
        } else {
            255
        }];
        p.push(c);
        j += 1;
    }
    p
}

fn category_of(k: usize) -> (c: TextureCategory)
    ensures
        c == category_at(k as int),
{
    if k == 0 {
        TextureCategory::Tfrag
    } else if k == 1 {
        TextureCategory::Moby
    } else if k == 2 {
        TextureCategory::Tie
    } else if k == 3 {
        TextureCategory::Shrub
    } else if k == 4 {
        TextureCategory::Part
    } else {
        TextureCategory::Fx
    }
}

/// Entry `i` of table `k`, decoded, when it yields a texture.
#[verifier::rlimit(40)]
fn read_level_texture(
    index: &[u8],
    decomp: &[u8],
    gs: &[u8],
    k: usize,
    i: u64,
    eo: usize,
    tbo: u64,
    msa: i64,
) -> (r: Option<LevelTexture>)
    requires
        k < 6,
        eo == entry_at(index@, k as int, i as int),
        eo + 16 <= index@.len(),
        tbo == usz(core_s32(index@, 0x60)),
        msa == moby_stash_addr(index@),
    ensures
        match r {
            Some(t) => tex_kept(index@, decomp@, gs@, k as int, i as int) && tex_matches(
                t,
                index@,
                decomp@,
                gs@,
                k as int,
                i as int,
            ),
            None => !tex_kept(index@, decomp@, gs@, k as int, i as int),
        },
{
    let ilen = index.len();
    let data_off = r_s32(index, eo);
    let w = r_s16(index, eo + 4) as i32;
    let h = r_s16(index, eo + 6) as i32;
    let typ = r_s16(index, eo + 8) as i32;
    let pal = r_s16(index, eo + 10) as i32;
    if w <= 0 || h <= 0 || w > 1024 || h > 1024 {
        return None;
    }
    assert(0 < w * h <= 1024 * 1024) by (nonlinear_arith)
        requires
            0 < w <= 1024,
            0 < h <= 1024,
    ;
    let pixel_size = (w * h) as u128;
    let doff = usz_of(data_off) as u128;
    let in_gs: bool;
    let base: u128;
    if typ == 3 || typ == 1 || typ == 2 {
        in_gs = false;
        base = tbo as u128;
    } else if typ == 0 {
        if msa >= 0 {
            in_gs = true;
            base = msa as u128;
        } else {
            return None;
        }
    } else {
        return None;
    }
    let sum = base + doff;
    let start: u128 = if sum >= 0x1_0000_0000_0000_0000 {
        sum - 0x1_0000_0000_0000_0000
    } else {
        sum
    };
    assert(start == wrap64(sum as int));
    let src: &[u8] = if in_gs {
        gs
    } else {
        decomp
    };
    if start + pixel_size > src.len() as u128 {
        return None;
    }
    let pa: u128 = (if pal > 0 {
        pal as u128
    } else {
        0
    }) * 0x100;
    if pa + 1024 > gs.len() as u128 {
        return None;
    }
    let pixels = copy_range(src, start as usize, (start + pixel_size) as usize);
    let palette = gs_palette(gs, pa as usize);
    Some(
        LevelTexture {
            category: category_of(k),
            index: i,
            width: w,
            height: h,
            data_off,
            pal,
            kind: typ,
            pixels,
            palette,
        },
    )
}

/// The textures of a level (process order: table by table in header
/// order, entries in order), each with its pixels and palette; tables
/// other than `filter`'s are left out when a filter is given.
pub fn decode_level_textures(
    index: &[u8],
    decomp: &[u8],
    gs_ram: &[u8],
    filter: Option<TextureCategory>,
) -> (r: Vec<LevelTexture>)
    requires
        core_arrays_whole(index@.len() as int),
    ensures
        r@.len() == level_texture_keys(index@, decomp@, gs_ram@, filter, 6).len(),
        forall|j: int|
            0 <= j < r@.len() ==> tex_matches(
                #[trigger] r@[j],
                index@,
                decomp@,
                gs_ram@,
                level_texture_keys(index@, decomp@, gs_ram@, filter, 6)[j].0,
                level_texture_keys(index@, decomp@, gs_ram@, filter, 6)[j].1,
            ),
{
    let ilen = index.len();
    let tbo = usz_of(read_core_s32(index, 0x60));
    let msa = find_moby_stash_addr(index);
    let mut r: Vec<LevelTexture> = Vec::new();
    let mut k: usize = 0;
    while k < 6
        invariant
            k <= 6,
            ilen == index@.len(),
            core_arrays_whole(index@.len() as int),
            tbo == usz(core_s32(index@, 0x60)),
            msa == moby_stash_addr(index@),
            r@.len() == level_texture_keys(index@, decomp@, gs_ram@, filter, k as nat).len(),
            forall|j: int|
                0 <= j < r@.len() ==> tex_matches(
                    #[trigger] r@[j],
                    index@,
                    decomp@,
                    gs_ram@,
                    level_texture_keys(index@, decomp@, gs_ram@, filter, k as nat)[j].0,
                    level_texture_keys(index@, decomp@, gs_ram@, filter, k as nat)[j].1,
                ),
        decreases 6 - k,
    {
        let ghost prev = level_texture_keys(index@, decomp@, gs_ram@, filter, k as nat);
        let field = 0x30 + 8 * k;
        assert(core_field_offset(8 + k as int) == field);
        let cnt_raw = read_core_s32(index, field);
        let off_raw = read_core_ar_offset(index, field);
        let selected = cnt_raw != 0 && off_raw != 0 && match filter {
            Some(c) => c == category_of(k),
            None => true,
        };
        if selected {
            let cnt = usz_of(cnt_raw);
            let off = usz_of(off_raw);
            let fit: u64 = if off as u128 <= index.len() as u128 {
                ((index.len() as u64 - off) / 16)
            } else {
                0
            };
            let n: u64 = if cnt < fit {
                cnt
            } else {
                fit
            };
            assert(n == table_len(index@, k as int));
            let mut i: u64 = 0;
            while i < n
                invariant
                    k < 6,
                    ilen == index@.len(),
                    i <= n,
                    n == table_len(index@, k as int),
                    off == usz(core_ar_offset(index@, table_field(k as int))),
                    n <= fit,
                    fit == (if off <= index@.len() {
                        (index@.len() - off) / 16
                    } else {
                        0
                    }),
                    tbo == usz(core_s32(index@, 0x60)),
                    msa == moby_stash_addr(index@),
                    r@.len() == prev.len() + kept_entries(
                        index@,
                        decomp@,
                        gs_ram@,
                        k as int,
                        i as nat,
                    ).len(),
                    forall|j: int|
                        0 <= j < r@.len() ==> tex_matches(
                            #[trigger] r@[j],
                            index@,
                            decomp@,
                            gs_ram@,
                            (prev + kept_entries(index@, decomp@, gs_ram@, k as int, i as nat))[j].0,
                            (prev + kept_entries(index@, decomp@, gs_ram@, k as int, i as nat))[j].1,
                        ),
                decreases n - i,
            {
                let ghost before = prev + kept_entries(index@, decomp@, gs_ram@, k as int, i as nat);
                assert(off + 16 * i + 16 <= index@.len()) by (nonlinear_arith)
                    requires
                        i < n,
                        n <= fit,
                        fit == (if off <= index@.len() {
                            (index@.len() - off) / 16
                        } else {
                            0
                        }),
                ;
                let eo = (off + 16 * i) as usize;
                let t = read_level_texture(index, decomp, gs_ram, k, i, eo, tbo, msa);
                match t {
                    Some(t) => {
                        r.push(t);
                        assert(prev + kept_entries(index@, decomp@, gs_ram@, k as int, (i + 1) as nat)
                            =~= before.push((k as int, i as int)));
                    },
                    None => {
                        assert(prev + kept_entries(index@, decomp@, gs_ram@, k as int, (i + 1) as nat)
                            =~= before);
                    },
                }
                i += 1;
            }
            assert(level_texture_keys(index@, decomp@, gs_ram@, filter, (k + 1) as nat) =~= prev
                + kept_entries(index@, decomp@, gs_ram@, k as int, n as nat));
        } else {
            assert(level_texture_keys(index@, decomp@, gs_ram@, filter, (k + 1) as nat) =~= prev);
        }
        k += 1;
    }
    r
}

} // verus!
