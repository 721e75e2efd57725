//! The level core header (start of `core_index.bin`): 37 fields, each a
//! signed 32-bit value or an array reference (count, offset); and the class
//! tables it points at.

use vstd::prelude::*;
use crate::common::{le_u16, le_u32, r_s16, r_s32, signed16, signed32};
use crate::wad::copy_range;

verus! {

/// Number of fields of the level core header.
pub const LEVEL_CORE_FIELD_COUNT: usize = 37;

/// Field `k` is an array reference (count, offset): the GS RAM table and the
/// class and texture tables.
pub open spec fn core_field_is_array(k: int) -> bool {
    k == 0 || (5 <= k && k <= 13)
}

/// Byte offset of field `k`: fields follow each other, array references
/// taking 8 bytes and values 4.
pub open spec fn core_field_offset(k: int) -> int {
    let arrays_before = if k <= 0 {
        0
    } else if k <= 5 {
        1
    } else if k <= 14 {
        k - 4
    } else {
        10
    };
    4 * k + 4 * arrays_before
}

/// Name of field `k`.
pub open spec fn core_field_name(k: int) -> Seq<char> {
    if k == 0 {
        "gs_ram"@
    } else if k == 1 {
        "tfrags"@
    } else if k == 2 {
        "occlusion"@
    } else if k == 3 {
        "sky"@
    } else if k == 4 {
        "collision"@
    } else if k == 5 {
        "moby_classes"@
    } else if k == 6 {
        "tie_classes"@
    } else if k == 7 {
        "shrub_classes"@
    } else if k == 8 {
        "tfrag_textures"@
    } else if k == 9 {
        "moby_textures"@
    } else if k == 10 {
        "tie_textures"@
    } else if k == 11 {
        "shrub_textures"@
    } else if k == 12 {
        "part_textures"@
    } else if k == 13 {
        "fx_textures"@
    } else if k == 14 {
        "textures_base_offset"@
    } else if k == 15 {
        "part_bank_offset"@
    } else if k == 16 {
        "fx_bank_offset"@
    } else if k == 17 {
        "part_defs_offset"@
    } else if k == 18 {
        "sound_remap_offset"@
    } else if k == 19 {
        "unknown_74"@
    } else if k == 20 {
        "ratchet_seqs"@
    } else if k == 21 {
        "scene_view_size"@
    } else if k == 22 {
        "moby_gs_stash_count"@
    } else if k == 23 {
        "moby_gs_stash_offset"@
    } else if k == 24 {
        "assets_compressed_size"@
    } else if k == 25 {
        "assets_decompressed_size"@
    } else if k == 26 {
        "chrome_map_texture"@
    } else if k == 27 {
        "chrome_map_palette"@
    } else if k == 28 {
        "glass_map_texture"@
    } else if k == 29 {
        "glass_map_palette"@
    } else if k == 30 {
        "unknown_a0"@
    } else if k == 31 {
        "heightmap_offset"@
    } else if k == 32 {
        "occlusion_oct_offset"@
    } else if k == 33 {
        "moby_gs_stash_list"@
    } else if k == 34 {
        "occlusion_rad_offset"@
    } else if k == 35 {
        "moby_sound_remap_offset"@
    } else {
        "occlusion_rad2_offset"@
    }
}

fn core_field_name_str(k: usize) -> (s: &'static str)
    requires
        k < 37,
    ensures
        s@ == core_field_name(k as int),
{
    if k == 0 {
        "gs_ram"
    } else if k == 1 {
        "tfrags"
    } else if k == 2 {
        "occlusion"
    } else if k == 3 {
        "sky"
    } else if k == 4 {
        "collision"
    } else if k == 5 {
        "moby_classes"
    } else if k == 6 {
        "tie_classes"
    } else if k == 7 {
        "shrub_classes"
    } else if k == 8 {
        "tfrag_textures"
    } else if k == 9 {
        "moby_textures"
    } else if k == 10 {
        "tie_textures"
    } else if k == 11 {
        "shrub_textures"
    } else if k == 12 {
        "part_textures"
    } else if k == 13 {
        "fx_textures"
    } else if k == 14 {
        "textures_base_offset"
    } else if k == 15 {
        "part_bank_offset"
    } else if k == 16 {
        "fx_bank_offset"
    } else if k == 17 {
        "part_defs_offset"
    } else if k == 18 {
        "sound_remap_offset"
    } else if k == 19 {
        "unknown_74"
    } else if k == 20 {
        "ratchet_seqs"
    } else if k == 21 {
        "scene_view_size"
    } else if k == 22 {
        "moby_gs_stash_count"
    } else if k == 23 {
        "moby_gs_stash_offset"
    } else if k == 24 {
        "assets_compressed_size"
    } else if k == 25 {
        "assets_decompressed_size"
    } else if k == 26 {
        "chrome_map_texture"
    } else if k == 27 {
        "chrome_map_palette"
    } else if k == 28 {
        "glass_map_texture"
    } else if k == 29 {
        "glass_map_palette"
    } else if k == 30 {
        "unknown_a0"
    } else if k == 31 {
        "heightmap_offset"
    } else if k == 32 {
        "occlusion_oct_offset"
    } else if k == 33 {
        "moby_gs_stash_list"
    } else if k == 34 {
        "occlusion_rad_offset"
    } else if k == 35 {
        "moby_sound_remap_offset"
    } else {
        "occlusion_rad2_offset"
    }
}

/// A field of the level core header.
#[derive(Debug, Clone, Copy, PartialEq, Eq, Structural)]
pub enum CoreField {
    /// A signed 32-bit value.
    Scalar(i32),
    /// An array reference: element count and byte offset.
    Array { count: i32, offset: i32 },
}

/// Field `k` as read from `data`.
pub open spec fn core_field_value(data: Seq<u8>, k: int) -> CoreField {
    let off = core_field_offset(k);
    if core_field_is_array(k) {
        CoreField::Array {
            count: signed32(le_u32(data, off)) as i32,
            offset: signed32(le_u32(data, off + 4)) as i32,
        }
    } else {
        CoreField::Scalar(signed32(le_u32(data, off)) as i32)
    }
}

/// Number of fields whose first 4 bytes lie in `len` bytes.
pub open spec fn core_fields_present(len: int) -> int {
    core_fields_present_from(len, 0)
}

/// Number of fields from `k` on whose first 4 bytes lie in `len` bytes.
pub open spec fn core_fields_present_from(len: int, k: int) -> int
    decreases 37 - k,
{
    if k < 0 || k >= 37 || core_field_offset(k) + 4 > len {
        0
    } else {
        1 + core_fields_present_from(len, k + 1)
    }
}

/// An array field whose count is in the data has its offset there too.
pub open spec fn core_arrays_whole(len: int) -> bool {
    forall|k: int|
        0 <= k < 37 && core_field_is_array(k) && core_field_offset(k) + 4 <= len ==> #[trigger]
            core_field_offset(k) + 8 <= len
}

proof fn lemma_core_fields_present(len: int, k: int)
    requires
        0 <= k <= 37,
    ensures
        0 <= core_fields_present_from(len, k) <= 37 - k,
        forall|j: int|
            k <= j < k + core_fields_present_from(len, k) ==> #[trigger] core_field_offset(j) + 4
                <= len,
        k + core_fields_present_from(len, k) < 37 ==> core_field_offset(
            k + core_fields_present_from(len, k),
        ) + 4 > len,
    decreases 37 - k,
{
    if k < 37 {
        lemma_core_fields_present(len, k + 1);
    }
}

/// The fields of the level core header that lie in `data`, in order, with
/// their names: as the fields sit one after the other, these are the first
/// [`core_fields_present`] of them.
pub fn parse_level_core_header(data: &[u8]) -> (r: Vec<(&'static str, CoreField)>)
    requires
        core_arrays_whole(data@.len() as int),
    ensures
        r@.len() == core_fields_present(data@.len() as int),
        forall|k: int|
            0 <= k < r@.len() ==> {
                &&& (#[trigger] r@[k]).0@ == core_field_name(k)
                &&& r@[k].1 == core_field_value(data@, k)
            },
{
    let ghost n = core_fields_present(data@.len() as int);
    proof {
        lemma_core_fields_present(data@.len() as int, 0);
    }
    let mut map: Vec<(&'static str, CoreField)> = Vec::new();
    let mut k: usize = 0;
    let mut off: usize = 0;
    while k < LEVEL_CORE_FIELD_COUNT
        invariant
            k <= 37,
            off == core_field_offset(k as int),
            n == core_fields_present(data@.len() as int),
            0 <= n <= 37,
            core_arrays_whole(data@.len() as int),
            forall|j: int| 0 <= j < n ==> #[trigger] core_field_offset(j) + 4 <= data@.len(),
            n < 37 ==> core_field_offset(n) + 4 > data@.len(),
            map@.len() == (if k < n {
                k as int
            } else {
                n
            }),
            forall|j: int|
                0 <= j < map@.len() ==> {
                    &&& (#[trigger] map@[j]).0@ == core_field_name(j)
                    &&& map@[j].1 == core_field_value(data@, j)
                },
        decreases 37 - k,
    {
        let is_array = k == 0 || (5 <= k && k <= 13);
        if off <= data.len() && data.len() - off >= 4 {
            assert(k < n) by {
                if k >= n {
                    assert(core_field_offset(n) <= core_field_offset(k as int));
                }
            }
            let name = core_field_name_str(k);
            let field = if is_array {
                assert(core_field_offset(k as int) + 8 <= data@.len());
                CoreField::Array { count: r_s32(data, off), offset: r_s32(data, off + 4) }
            } else {
                CoreField::Scalar(r_s32(data, off))
            };
            map.push((name, field));
        } else {
            assert(k >= n);
        }
        off += if is_array {
            8
        } else {
            4
        };
        k += 1;
    }
    map
}

/// An entry of a class table (moby, tie: 0x20 bytes; shrub: 0x30 bytes):
/// its index, the four leading words, the 16 texture bytes, and for shrubs
/// the billboard width and height.
pub struct ClassEntry {
    pub index: usize,
    pub wad_off: i32,
    pub o_class: i32,
    pub u8_word: i32,
    pub uc_word: i32,
    pub tex: Vec<u8>,
    pub billboard: Option<(i16, i16)>,
}

/// Number of class entries read: entries of a supported size (0x20 or 0x30)
/// follow each other from `start` while they fit, at most `count` of them
/// (no limit for a negative count).
pub open spec fn class_entry_count(len: int, start: int, count: int, es: int) -> int {
    if es != 0x20 && es != 0x30 || start > len {
        0
    } else {
        let fit = (len - start) / es;
        if count >= 0 && count < fit {
            count
        } else {
            fit
        }
    }
}

/// `e` is class entry `i` of the table at `start` with entries of `es` bytes.
pub open spec fn class_entry_read(data: Seq<u8>, start: int, es: int, i: int, e: ClassEntry) -> bool {
    let off = start + i * es;
    &&& e.index == i
    &&& e.wad_off == signed32(le_u32(data, off))
    &&& e.o_class == signed32(le_u32(data, off + 4))
    &&& e.u8_word == signed32(le_u32(data, off + 8))
    &&& e.uc_word == signed32(le_u32(data, off + 12))
    &&& e.tex@ == data.subrange(off + 16, off + 32)
    &&& e.billboard == (if es == 0x30 {
        Some(
            (
                signed16(le_u16(data, off + 0x20)) as i16,
                signed16(le_u16(data, off + 0x22)) as i16,
            ),
        )
    } else {
        None::<(i16, i16)>
    })
}

/// The entries of the class table at `offset` (`count` entries of
/// `entry_size` bytes, as the listing shows them); see
/// [`class_entry_count`] and [`class_entry_read`].
pub fn extract_class_entries_json(data: &[u8], offset: i32, count: i32, entry_size: u32) -> (r: Vec<
    ClassEntry,
>)
    requires
        offset >= 0,
    ensures
        r@.len() == class_entry_count(data@.len() as int, offset as int, count as int, entry_size as int),
        forall|i: int|
            0 <= i < r@.len() ==> class_entry_read(
                data@,
                offset as int,
                entry_size as int,
                i,
                #[trigger] r@[i],
            ),
{
    let mut entries: Vec<ClassEntry> = Vec::new();
    if entry_size != 0x20 && entry_size != 0x30 {
        return entries;
    }
    let start = offset as usize;
    let es = entry_size as usize;
    if start > data.len() {
        return entries;
    }
    let ghost n = class_entry_count(data@.len() as int, start as int, count as int, es as int);
    let ghost fit = (data@.len() - start) / (es as int);
    assert(fit * es <= data@.len() - start < (fit + 1) * es) by (nonlinear_arith)
        requires
            fit == (data@.len() - start) / (es as int),
            es > 0,
            data@.len() >= start,
    ;
    let len = data.len();
    let mut i: usize = 0;
    while count < 0 || i < count as usize
        invariant
            len == data@.len(),
            start <= data@.len(),
            es == 0x20 || es == 0x30,
            es == entry_size,
            start == offset,
            n == class_entry_count(data@.len() as int, start as int, count as int, es as int),
            fit == (data@.len() - start) / (es as int),
            fit * es <= data@.len() - start < (fit + 1) * es,
            i <= fit,
            i <= n,
            entries@.len() == i,
            forall|j: int|
                0 <= j < i ==> class_entry_read(data@, start as int, es as int, j, #[trigger] entries@[j]),
        ensures
            entries@.len() == n,
            forall|j: int|
                0 <= j < entries@.len() ==> class_entry_read(
                    data@,
                    start as int,
                    es as int,
                    j,
                    #[trigger] entries@[j],
                ),
        decreases fit - i,
    {
        assert(i * es <= fit * es) by (nonlinear_arith)
            requires
                i <= fit,
                es > 0,
        ;
        let off = start + i * es;
        if off > data.len() || data.len() - off < es {
            assert(i == fit) by (nonlinear_arith)
                requires
                    i <= fit,
                    off == start + i * es,
                    off + es > data@.len(),
                    fit * es <= data@.len() - start,
                    es > 0,
            ;
            break;
        }
        assert(i < fit) by (nonlinear_arith)
            requires
                i <= fit,
                off == start + i * es,
                off + es <= data@.len(),
                data@.len() - start < (fit + 1) * es,
                es > 0,
        ;
        let tex = copy_range(data, off + 16, off + 32);
        let billboard = if es == 0x30 {
            Some((r_s16(data, off + 0x20), r_s16(data, off + 0x22)))
        } else {
            None
        };
        let e = ClassEntry {
            index: i,
            wad_off: r_s32(data, off),
            o_class: r_s32(data, off + 4),
            u8_word: r_s32(data, off + 8),
            uc_word: r_s32(data, off + 12),
            tex,
            billboard,
        };
        let ghost k = i as int;
        entries.push(e);
        assert(entries@[k] == e);
        i += 1;
    }
    entries
}

} // verus!
