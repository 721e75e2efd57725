//! The BONUS global WAD: credits text and images, demo menu and exit
//! screens, cheat, skill and trophy images.
//!
//! Its header holds tables of (sector, sector count) pairs, one table per
//! kind of content; each non-empty pair names a section of the WAD.

use vstd::prelude::*;
use crate::common::{le_u32, r_u32};
use crate::level_wad::views;
use crate::texture::{decode_pif8, decode_raw_rgba, pif8_decoded, raw_rgba_decoded};
use crate::wad::{
    copy_range, decompress_wad, is_descriptor_cut, spec_decompress_wad, wad_container_descriptor_cut,
};

verus! {

/// Byte offset and byte size of the sector range at `offset`.
pub fn parse_sec_range(data: &[u8], offset: usize) -> (r: (u64, u64))
    requires
        offset + 8 <= data@.len(),
    ensures
        r.0 == le_u32(data@, offset as int) * 0x800,
        r.1 == le_u32(data@, offset + 4) * 0x800,
{
    let _len = data.len();
    let sector = r_u32(data, offset) as u64;
    let count = r_u32(data, offset + 4) as u64;
    (sector * 0x800, count * 0x800)
}

/// The kinds of content of the BONUS WAD, in header order.
#[derive(Debug, Clone, Copy, PartialEq, Eq, Structural)]
pub enum BonusGroup {
    CreditsText,
    CreditsImages,
    DemoMenu,
    DemoExit,
    CheatImages,
    SkillImages,
    TrophyImage,
}

pub open spec fn group_at(k: int) -> BonusGroup {
    if k == 0 {
        BonusGroup::CreditsText
    } else if k == 1 {
        BonusGroup::CreditsImages
    } else if k == 2 {
        BonusGroup::DemoMenu
    } else if k == 3 {
        BonusGroup::DemoExit
    } else if k == 4 {
        BonusGroup::CheatImages
    } else if k == 5 {
        BonusGroup::SkillImages
    } else {
        BonusGroup::TrophyImage
    }
}

/// Header offset of the table of group `k`.
pub open spec fn group_table(k: int) -> int {
    if k == 0 {
        0x5c0
    } else if k == 1 {
        0x5f0
    } else if k == 2 {
        0x9f0
    } else if k == 3 {
        0xa20
    } else if k == 4 {
        0xa50
    } else if k == 5 {
        0xaf0
    } else {
        0xbe8
    }
}

/// Number of entries of the table of group `k`.
pub open spec fn group_len(k: int) -> int {
    if k == 0 {
        6
    } else if k == 1 {
        13
    } else if k == 2 {
        6
    } else if k == 3 {
        6
    } else if k == 4 {
        20
    } else if k == 5 {
        31
    } else {
        1
    }
}

fn group_info(k: usize) -> (r: (BonusGroup, usize, usize))
    requires
        k < 7,
    ensures
        r.0 == group_at(k as int),
        r.1 == group_table(k as int),
        r.2 == group_len(k as int),
{
    if k == 0 {
        (BonusGroup::CreditsText, 0x5c0, 6)
    } else if k == 1 {
        (BonusGroup::CreditsImages, 0x5f0, 13)
    } else if k == 2 {
        (BonusGroup::DemoMenu, 0x9f0, 6)
    } else if k == 3 {
        (BonusGroup::DemoExit, 0xa20, 6)
    } else if k == 4 {
        (BonusGroup::CheatImages, 0xa50, 20)
    } else if k == 5 {
        (BonusGroup::SkillImages, 0xaf0, 31)
    } else {
        (BonusGroup::TrophyImage, 0xbe8, 1)
    }
}

/// The range pair at `off` is in the data and, when its size is not zero,
/// so is the section it names.
pub open spec fn slot_ok(data: Seq<u8>, off: int) -> bool {
    &&& off + 8 <= data.len()
    &&& le_u32(data, off + 4) == 0 || le_u32(data, off) * 0x800 + le_u32(data, off + 4) * 0x800
        <= data.len()
}

/// Every range pair of the header, and every section they name, is in the data.
pub open spec fn bonus_readable(data: Seq<u8>) -> bool {
    forall|k: int, i: int|
        0 <= k < 7 && 0 <= i < group_len(k) ==> #[trigger] slot_ok(data, group_table(k) + 8 * i)
}

/// A section of the BONUS WAD: its group, its index in the group's table,
/// its bytes.
pub struct BonusSection {
    pub group: BonusGroup,
    pub index: u32,
    pub bytes: Vec<u8>,
}

/// The (group, index) pairs of the non-empty sections among the first `n`
/// entries of group `k`.
pub open spec fn group_sections(data: Seq<u8>, k: int, n: nat) -> Seq<(int, int)>
    decreases n,
{
    if n == 0 {
        Seq::empty()
    } else {
        let prev = group_sections(data, k, (n - 1) as nat);
        if le_u32(data, group_table(k) + 8 * (n - 1) + 4) > 0 {
            prev.push((k, n - 1))
        } else {
            prev
        }
    }
}

/// The (group, index) pairs of the non-empty sections of groups `0..m`.
pub open spec fn bonus_keys(data: Seq<u8>, m: nat) -> Seq<(int, int)>
    decreases m,
{
    if m == 0 {
        Seq::empty()
    } else {
        bonus_keys(data, (m - 1) as nat) + group_sections(
            data,
            m - 1,
            group_len(m - 1) as nat,
        )
    }
}

/// `s` is entry `i` of group `k`: the bytes of the section it names.
pub open spec fn section_is(s: BonusSection, data: Seq<u8>, k: int, i: int) -> bool {
    let off = group_table(k) + 8 * i;
    let start = le_u32(data, off) * 0x800;
    &&& s.group == group_at(k)
    &&& s.index == i
    &&& s.bytes@ == data.subrange(start, start + le_u32(data, off + 4) * 0x800)
}

/// Whether [`bonus_sections`] can read `data` (see [`bonus_readable`]).
pub fn bonus_table_readable(data: &[u8]) -> (r: bool)
    ensures
        r == bonus_readable(data@),
{
    let mut k: usize = 0;
    while k < 7
        invariant
            k <= 7,
            forall|kk: int, i: int|
                0 <= kk < k && 0 <= i < group_len(kk) ==> #[trigger] slot_ok(
                    data@,
                    group_table(kk) + 8 * i,
                ),
        decreases 7 - k,
    {
        let (_, table, n) = group_info(k);
        let mut i: usize = 0;
        while i < n
            invariant
                k < 7,
                table == group_table(k as int),
                n == group_len(k as int),
                i <= n,
                forall|kk: int, j: int|
                    0 <= kk < k && 0 <= j < group_len(kk) ==> #[trigger] slot_ok(
                        data@,
                        group_table(kk) + 8 * j,
                    ),
                forall|j: int| 0 <= j < i ==> #[trigger] slot_ok(data@, table + 8 * j),
            decreases n - i,
        {
            let off = table + 8 * i;
            if off + 8 > data.len() {
                assert(!slot_ok(data@, group_table(k as int) + 8 * i));
                return false;
            }
            let (start, size) = parse_sec_range(data, off);
            if size != 0 && start + size > data.len() as u64 {
                assert(!slot_ok(data@, group_table(k as int) + 8 * i));
                return false;
            }
            i += 1;
        }
        k += 1;
    }
    true
}

/// The non-empty sections of the BONUS WAD, group by group in header
/// order, each group's in table order.
pub fn bonus_sections(data: &[u8]) -> (r: Vec<BonusSection>)
    requires
        bonus_readable(data@),
    ensures
        r@.len() == bonus_keys(data@, 7).len(),
        forall|j: int|
            0 <= j < r@.len() ==> section_is(
                #[trigger] r@[j],
                data@,
                bonus_keys(data@, 7)[j].0,
                bonus_keys(data@, 7)[j].1,
            ),
{
    let dlen = data.len();
    let mut r: Vec<BonusSection> = Vec::new();
    let mut k: usize = 0;
    while k < 7
        invariant
            k <= 7,
            dlen == data@.len(),
            bonus_readable(data@),
            r@.len() == bonus_keys(data@, k as nat).len(),
            forall|j: int|
                0 <= j < r@.len() ==> section_is(
                    #[trigger] r@[j],
                    data@,
                    bonus_keys(data@, k as nat)[j].0,
                    bonus_keys(data@, k as nat)[j].1,
                ),
        decreases 7 - k,
    {
        let ghost prev = bonus_keys(data@, k as nat);
        let (group, table, n) = group_info(k);
        let mut i: usize = 0;
        while i < n
            invariant
                k < 7,
                dlen == data@.len(),
                bonus_readable(data@),
                group == group_at(k as int),
                table == group_table(k as int),
                n == group_len(k as int),
                i <= n,
                r@.len() == prev.len() + group_sections(data@, k as int, i as nat).len(),
                forall|j: int|
                    0 <= j < r@.len() ==> section_is(
                        #[trigger] r@[j],
                        data@,
                        (prev + group_sections(data@, k as int, i as nat))[j].0,
                        (prev + group_sections(data@, k as int, i as nat))[j].1,
                    ),
            decreases n - i,
        {
            let ghost before = prev + group_sections(data@, k as int, i as nat);
            let off = table + 8 * i;
            assert(slot_ok(data@, group_table(k as int) + 8 * i));
            let (start, size) = parse_sec_range(data, off);
            if size > 0 {
                assert(le_u32(data@, off + 4) != 0);
                assert(start + size <= data@.len());
                let bytes = copy_range(data, start as usize, (start + size) as usize);
                let ghost old_r = r@;
                let sec = BonusSection { group, index: i as u32, bytes };
                assert(section_is(sec, data@, k as int, i as int));
                r.push(sec);
                assert(prev + group_sections(data@, k as int, (i + 1) as nat) =~= before.push(
                    (k as int, i as int),
                ));
                assert(forall|j: int| 0 <= j < old_r.len() ==> r@[j] == old_r[j]);
            } else {
                assert(prev + group_sections(data@, k as int, (i + 1) as nat) =~= before);
            }
            i += 1;
        }
        assert(bonus_keys(data@, (k + 1) as nat) =~= prev + group_sections(
            data@,
            k as int,
            n as nat,
        ));
        k += 1;
    }
    r
}

// ── credits text ──────────────────────────────────────────────────

/// The non-empty NUL-terminated runs of `s` from position `i`, the current
/// run having started at `start` (bytes after the last NUL are dropped).
pub open spec fn nul_runs_from(s: Seq<u8>, i: int, start: int) -> Seq<Seq<u8>>
    decreases s.len() - i,
{
    if i < 0 || i >= s.len() {
        Seq::empty()
    } else if s[i] == 0 {
        let rest = nul_runs_from(s, i + 1, i + 1);
        if i > start {
            seq![s.subrange(start, i)] + rest
        } else {
            rest
        }
    } else {
        nul_runs_from(s, i + 1, start)
    }
}

/// The non-empty NUL-terminated strings of `s`, in order.
pub open spec fn nul_runs(s: Seq<u8>) -> Seq<Seq<u8>> {
    nul_runs_from(s, 0, 0)
}

/// The non-empty NUL-terminated strings of `s`.
pub fn split_nul_runs(s: &[u8]) -> (r: Vec<Vec<u8>>)
    ensures
        views(r@) == nul_runs(s@),
{
    let mut r: Vec<Vec<u8>> = Vec::new();
    let mut start: usize = 0;
    let mut i: usize = 0;
    while i < s.len()
        invariant
            start <= i <= s@.len(),
            views(r@) + nul_runs_from(s@, i as int, start as int) == nul_runs(s@),
        decreases s@.len() - i,
    {
        if s[i] == 0 {
            if i > start {
                let run = copy_range(s, start, i);
                let ghost old_views = views(r@);
                r.push(run);
                assert(views(r@) =~= old_views.push(s@.subrange(start as int, i as int)));
                assert(views(r@) + nul_runs_from(s@, i + 1, i + 1) =~= old_views + (seq![
                    s@.subrange(start as int, i as int),
                ] + nul_runs_from(s@, i + 1, i + 1)));
            }
            start = i + 1;
        }
        i += 1;
    }
    r
}

/// Where the `j`-th pair of the credits table stops the scan: past the
/// first 4096 bytes or the data, a (0, 0) pair, a text outside the data,
/// or a text over 64 KiB.
pub open spec fn credit_stop(data: Seq<u8>, j: int) -> bool {
    let lim = if data.len() < 4096 {
        data.len() as int
    } else {
        4096
    };
    let off = le_u32(data, 8 * j);
    let sz = le_u32(data, 8 * j + 4);
    ||| 8 * j + 8 > lim
    ||| off == 0 && sz == 0
    ||| off > data.len()
    ||| off + sz > data.len()
    ||| sz > 0x10000
}

/// Number of credits texts from pair `j` on.
pub open spec fn credit_count_from(data: Seq<u8>, j: int) -> int
    decreases 4096 - 8 * j,
{
    if j < 0 || 8 * j + 8 > 4096 || credit_stop(data, j) {
        0
    } else {
        1 + credit_count_from(data, j + 1)
    }
}

/// A credits text: its offset and size in the section, and its strings.
pub struct CreditText {
    pub offset: u32,
    pub size: u32,
    pub strings: Vec<Vec<u8>>,
}

/// `t` is the text of pair `j`.
pub open spec fn credit_text_is(t: CreditText, data: Seq<u8>, j: int) -> bool {
    let off = le_u32(data, 8 * j);
    let sz = le_u32(data, 8 * j + 4);
    &&& t.offset == off
    &&& t.size == sz
    &&& views(t.strings@) == nul_runs(data.subrange(off, off + sz))
}

proof fn lemma_credit_count(data: Seq<u8>, j: int)
    requires
        0 <= j,
    ensures
        0 <= credit_count_from(data, j),
        forall|q: int| j <= q < j + credit_count_from(data, j) ==> !#[trigger] credit_stop(data, q),
        credit_stop(data, j + credit_count_from(data, j)),
    decreases 4096 - 8 * j,
{
    if !(8 * j + 8 > 4096 || credit_stop(data, j)) {
        lemma_credit_count(data, j + 1);
    }
}

/// The texts of a credits section: the (offset, size) pairs at its start,
/// read until [`credit_stop`], each split into its NUL-terminated strings.
pub fn credit_texts(data: &[u8]) -> (r: Vec<CreditText>)
    ensures
        r@.len() == credit_count_from(data@, 0),
        forall|j: int| 0 <= j < r@.len() ==> credit_text_is(#[trigger] r@[j], data@, j),
{
    proof {
        lemma_credit_count(data@, 0);
    }
    let lim: usize = if data.len() < 4096 {
        data.len()
    } else {
        4096
    };
    let mut r: Vec<CreditText> = Vec::new();
    let mut pos: usize = 0;
    while pos + 8 <= lim
        invariant
            lim <= data@.len(),
            lim == (if data@.len() < 4096 {
                data@.len() as int
            } else {
                4096
            }),
            pos % 8 == 0,
            pos <= lim,
            pos == 8 * r@.len(),
            r@.len() <= credit_count_from(data@, 0),
            forall|q: int| 0 <= q < credit_count_from(data@, 0) ==> !#[trigger] credit_stop(data@, q),
            credit_stop(data@, credit_count_from(data@, 0)),
            forall|j: int| 0 <= j < r@.len() ==> credit_text_is(#[trigger] r@[j], data@, j),
        ensures
            credit_stop(data@, r@.len() as int),
            r@.len() <= credit_count_from(data@, 0),
            forall|j: int| 0 <= j < r@.len() ==> credit_text_is(#[trigger] r@[j], data@, j),
        decreases lim - pos,
    {
        let ghost j = r@.len() as int;
        let text_off = r_u32(data, pos);
        let text_sz = r_u32(data, pos + 4);
        if text_off == 0 && text_sz == 0 {
            assert(credit_stop(data@, j));
            break;
        }
        if text_off as usize > data.len() || text_off as u64 + text_sz as u64 > data.len() as u64 {
            assert(credit_stop(data@, j));
            break;
        }
        if text_sz > 0x10000 {
            assert(credit_stop(data@, j));
            break;
        }
        assert(!credit_stop(data@, j));
        assert(j < credit_count_from(data@, 0));
        let end = text_off as u64 + text_sz as u64;
        let text = slice_of(data, text_off as usize, end as usize);
        let strings = split_nul_runs(text);
        r.push(CreditText { offset: text_off, size: text_sz, strings });
        pos += 8;
    }
    r
}

fn slice_of(s: &[u8], start: usize, stop: usize) -> (r: &[u8])
    requires
        start <= stop <= s@.len(),
    ensures
        r@ == s@.subrange(start as int, stop as int),
{
    &s[start..stop]
}

/// Whether a byte string is valid UTF-8 (what `std::str::from_utf8`
/// accepts).
pub uninterp spec fn utf8_valid(b: Seq<u8>) -> bool;

/// `std::str::from_utf8(b).is_ok()`. The contract names the result: it is
/// a function of the bytes alone, and UTF-8 validation is not restated here.
#[verifier::external_body]
fn is_utf8(b: &[u8]) -> (r: bool)
    ensures
        r == utf8_valid(b@),
{
    std::str::from_utf8(b).is_ok()
}

/// A byte of plain text: tab, line feed, carriage return or printable ASCII.
pub open spec fn is_plain_byte(c: u8) -> bool {
    c == 0x0a || c == 0x0d || c == 0x09 || (0x20 <= c < 0x7f)
}

/// How a credits string is written to the text dump.
#[derive(Debug, PartialEq, Eq)]
pub enum CreditLine {
    /// Plain text, written as it is.
    Text(Vec<u8>),
    /// Not UTF-8: written as the list of its byte values.
    ByteList(Vec<u8>),
    /// UTF-8 with other characters: left out.
    Hidden,
}

/// The line of a credits string: plain text when every byte is plain, the
/// byte list when the string is not UTF-8, hidden otherwise.
pub fn credit_line(s: &[u8]) -> (r: CreditLine)
    ensures
        (forall|i: int| 0 <= i < s@.len() ==> is_plain_byte(#[trigger] s@[i])) ==> (r matches CreditLine::Text(t) && t@ == s@),
        !(forall|i: int| 0 <= i < s@.len() ==> is_plain_byte(#[trigger] s@[i])) ==> (if utf8_valid(s@) {
            r is Hidden
        } else {
            r matches CreditLine::ByteList(b) && b@ == s@
        }),
{
    let mut i: usize = 0;
    let mut plain = true;
    while i < s.len()
        invariant
            i <= s@.len(),
            plain == (forall|j: int| 0 <= j < i ==> is_plain_byte(#[trigger] s@[j])),
        decreases s@.len() - i,
    {
        let c = s[i];
        let ok = c == 0x0a || c == 0x0d || c == 0x09 || (0x20 <= c && c < 0x7f);
        if !ok {
            assert(!is_plain_byte(s@[i as int]));
        }
        plain = plain && ok;
        i += 1;
    }
    let whole = copy_range(s, 0, s.len());
    assert(whole@ =~= s@);
    if plain {
        CreditLine::Text(whole)
    } else if !is_utf8(s) {
        CreditLine::ByteList(whole)
    } else {
        CreditLine::Hidden
    }
}

// ── images ───────────────────────────────────────────────────────

/// An image of the BONUS WAD as written out.
#[derive(Debug, PartialEq, Eq)]
pub enum BonusImage {
    /// A decoded image: width, height, RGBA bytes.
    Png { width: u32, height: u32, rgba: Vec<u8> },
    /// Bytes that no decoder took, written as they are.
    Bin(Vec<u8>),
    /// A WAD block that did not decompress, written as it is.
    Wad(Vec<u8>),
}

/// `img` is what the decoders make of `bytes`: the raw RGBA decoding when
/// it succeeds, else (when `pif8` is set) the PIF8 decoding when it
/// succeeds, else the bytes themselves.
pub open spec fn decoded_image(bytes: Seq<u8>, img: BonusImage, rgba_first: bool, pif8: bool) -> bool {
    match img {
        BonusImage::Png { width, height, rgba } => {
            ||| rgba_first && raw_rgba_decoded(bytes, Some((width, height, rgba)))
            ||| pif8 && (rgba_first ==> raw_rgba_decoded(bytes, None)) && pif8_decoded(
                bytes,
                Some((width, height, rgba)),
            )
        },
        BonusImage::Bin(b) => {
            &&& b@ == bytes
            &&& rgba_first ==> raw_rgba_decoded(bytes, None)
            &&& pif8 ==> pif8_decoded(bytes, None)
        },
        BonusImage::Wad(_) => false,
    }
}

/// Decode an image: first as raw RGBA (when `rgba_first`), then as PIF8
/// (when `pif8`); the bytes themselves when neither takes them.
pub fn decode_bonus_image(bytes: &[u8], rgba_first: bool, pif8: bool) -> (img: BonusImage)
    ensures
        decoded_image(bytes@, img, rgba_first, pif8),
{
    if rgba_first {
        let d = decode_raw_rgba(bytes);
        if let Some((w, h, rgba)) = d {
            assert(raw_rgba_decoded(bytes@, Some((w, h, rgba))));
            return BonusImage::Png { width: w, height: h, rgba };
        }
        assert(raw_rgba_decoded(bytes@, None));
    }
    if pif8 {
        let d = decode_pif8(bytes);
        if let Some((w, h, rgba)) = d {
            assert(pif8_decoded(bytes@, Some((w, h, rgba))));
            return BonusImage::Png { width: w, height: h, rgba };
        }
        assert(pif8_decoded(bytes@, None));
    }
    let b = copy_range(bytes, 0, bytes.len());
    assert(b@ =~= bytes@);
    BonusImage::Bin(b)
}

/// Number of entries of a demo image table: its leading count, or 0 when
/// that is above 1000.
pub open spec fn demo_count(data: Seq<u8>) -> int {
    let c = le_u32(data, 0);
    if c > 1000 {
        0
    } else {
        c
    }
}

/// Entry `i` of a demo image table ends it (0 or 0xFFFF_FFFF).
pub open spec fn demo_end(data: Seq<u8>, i: int) -> bool {
    let off = le_u32(data, 4 + 4 * i);
    off == 0xFFFF_FFFF || off == 0
}

/// The offsets of the table from entry `i` on that lie inside the data.
pub open spec fn demo_offsets_from(data: Seq<u8>, i: int) -> Seq<int>
    decreases demo_count(data) - i,
{
    if i < 0 || i >= demo_count(data) || demo_end(data, i) {
        Seq::empty()
    } else {
        let off = le_u32(data, 4 + 4 * i);
        let rest = demo_offsets_from(data, i + 1);
        if off < data.len() {
            seq![off] + rest
        } else {
            rest
        }
    }
}

/// The table from entry `i` on is read without running past the data.
pub open spec fn demo_table_from_ok(data: Seq<u8>, i: int) -> bool
    decreases demo_count(data) - i,
{
    if i < 0 || i >= demo_count(data) {
        true
    } else {
        8 + 4 * i <= data.len() && (demo_end(data, i) || demo_table_from_ok(data, i + 1))
    }
}

/// Where an image of a demo section starts, its bytes to the end.
pub open spec fn demo_chunk(data: Seq<u8>, off: int) -> Seq<u8> {
    data.subrange(off, data.len() as int)
}

/// At most the first MiB of an image's bytes.
pub open spec fn demo_cut(data: Seq<u8>, off: int) -> Seq<u8> {
    let rem = data.len() - off;
    data.subrange(
        off,
        off + if rem < 0x100000 {
            rem
        } else {
            0x100000
        },
    )
}

/// The chunk starts with "WAD".
pub open spec fn starts_wad(c: Seq<u8>) -> bool {
    c.len() >= 3 && c[0] == 0x57u8 && c[1] == 0x41u8 && c[2] == 0x44u8
}

/// A demo section can be read: its count, its table, and no WAD image
/// whose container header stops inside its block descriptor.
pub open spec fn demo_readable(data: Seq<u8>) -> bool {
    &&& 4 <= data.len()
    &&& demo_table_from_ok(data, 0)
    &&& forall|j: int|
        0 <= j < demo_offsets_from(data, 0).len() ==> !wad_container_descriptor_cut(
            #[trigger] demo_chunk(data, demo_offsets_from(data, 0)[j]),
        )
}

/// The images of a demo section: `None` when its table lists none (the
/// section is then kept whole), else (entry, image) pairs.
pub open spec fn demo_image_is(data: Seq<u8>, off: int, img: BonusImage) -> bool {
    let chunk = demo_chunk(data, off);
    let cut = demo_cut(data, off);
    if starts_wad(chunk) {
        match spec_decompress_wad(chunk) {
            Ok(dec) => if dec.len() > 0 {
                decoded_image(dec, img, true, true)
            } else {
                img matches BonusImage::Wad(b) && b@ == cut
            },
            Err(_) => img matches BonusImage::Wad(b) && b@ == cut,
        }
    } else {
        decoded_image(cut, img, true, false)
    }
}

/// The (entry, offset) pairs of the first `n` listed offsets that leave at
/// least 16 bytes.
pub open spec fn demo_kept(data: Seq<u8>, n: nat) -> Seq<(int, int)>
    decreases n,
{
    if n == 0 {
        Seq::empty()
    } else {
        let prev = demo_kept(data, (n - 1) as nat);
        let off = demo_offsets_from(data, 0)[n - 1];
        if data.len() - off >= 16 {
            prev.push((n - 1, off))
        } else {
            prev
        }
    }
}

proof fn lemma_demo_offsets(data: Seq<u8>, i: int)
    requires
        0 <= i,
    ensures
        forall|j: int|
            0 <= j < demo_offsets_from(data, i).len() ==> 0 < #[trigger] demo_offsets_from(
                data,
                i,
            )[j] < data.len(),
    decreases demo_count(data) - i,
{
    if !(i < 0 || i >= demo_count(data) || demo_end(data, i)) {
        lemma_demo_offsets(data, i + 1);
        let off = le_u32(data, 4 + 4 * i);
        let rest = demo_offsets_from(data, i + 1);
        if off < data.len() {
            assert forall|j: int| 0 <= j < demo_offsets_from(data, i).len() implies 0
                < #[trigger] demo_offsets_from(data, i)[j] < data.len() by {
                if j > 0 {
                    assert(demo_offsets_from(data, i)[j] == rest[j - 1]);
                }
            }
        }
    }
}

/// The listed offsets of a demo section's table, read from entry `i` on.
fn demo_offsets(data: &[u8]) -> (r: Vec<u64>)
    requires
        4 <= data@.len(),
        demo_table_from_ok(data@, 0),
    ensures
        r@.len() == demo_offsets_from(data@, 0).len(),
        forall|j: int| 0 <= j < r@.len() ==> r@[j] == #[trigger] demo_offsets_from(data@, 0)[j],
{
    let c = r_u32(data, 0) as u64;
    let count: u64 = if c > 1000 {
        0
    } else {
        c
    };
    let mut r: Vec<u64> = Vec::new();
    let mut i: u64 = 0;
    while i < count
        invariant
            count == demo_count(data@),
            count <= 1000,
            i <= count,
            demo_table_from_ok(data@, i as int),
            (r@.map_values(|x: u64| x as int) + demo_offsets_from(data@, i as int)) =~= demo_offsets_from(data@, 0),
        ensures
            r@.map_values(|x: u64| x as int) =~= demo_offsets_from(data@, 0),
        decreases count - i,
    {
        let off = r_u32(data, (4 + 4 * i) as usize);
        if off == 0xFFFF_FFFF || off == 0 {
            assert(demo_offsets_from(data@, i as int) =~= Seq::<int>::empty());
            break;
        }
        if (off as usize) < data.len() {
            let ghost old_r = r@;
            r.push(off as u64);
            assert(r@.map_values(|x: u64| x as int) =~= old_r.map_values(|x: u64| x as int).push(off as int));
        }
        i += 1;
    }
    assert forall|j: int| 0 <= j < r@.len() implies r@[j] == #[trigger] demo_offsets_from(data@, 0)[j] by {
        assert(r@.map_values(|x: u64| x as int)[j] == r@[j] as int);
    }
    r
}

/// The images of a demo section.
#[derive(Debug, PartialEq, Eq)]
pub enum DemoImages {
    /// The table lists no image: the section is kept whole.
    Whole,
    /// (table entry, image) pairs.
    Images(Vec<(u64, BonusImage)>),
}

/// Whether [`extract_demo_images`] can read `data` (see [`demo_readable`]).
pub fn demo_section_readable(data: &[u8]) -> (r: bool)
    ensures
        r == demo_readable(data@),
{
    if data.len() < 4 {
        return false;
    }
    let c = r_u32(data, 0) as u64;
    let count: u64 = if c > 1000 {
        0
    } else {
        c
    };
    let mut i: u64 = count;
    // The table is checked from its end, so that each step knows the rest.
    let mut ok_from = true;
    let mut done_from = true;
    proof {
        assert(demo_table_from_ok(data@, count as int));
    }
    while i > 0
        invariant
            4 <= data@.len(),
            count == demo_count(data@),
            count <= 1000,
            i <= count,
            ok_from == demo_table_from_ok(data@, i as int),
        decreases i,
    {
        let j = i - 1;
        let ok_here = if (8 + 4 * j) as usize <= data.len() {
            let off = r_u32(data, (4 + 4 * j) as usize);
            off == 0xFFFF_FFFF || off == 0 || ok_from
        } else {
            false
        };
        ok_from = ok_here;
        i = j;
    }
    if !ok_from {
        return false;
    }
    let offs = demo_offsets(data);
    let dlen = data.len();
    proof {
        lemma_demo_offsets(data@, 0);
    }
    let mut k: usize = 0;
    while k < offs.len()
        invariant
            dlen == data@.len(),
            4 <= data@.len(),
            demo_table_from_ok(data@, 0),
            offs@.len() == demo_offsets_from(data@, 0).len(),
            forall|j: int| 0 <= j < offs@.len() ==> offs@[j] == #[trigger] demo_offsets_from(data@, 0)[j],
            forall|j: int|
                0 <= j < demo_offsets_from(data@, 0).len() ==> 0 < #[trigger] demo_offsets_from(
                    data@,
                    0,
                )[j] < data@.len(),
            k <= offs@.len(),
            forall|j: int| 0 <= j < k ==> !wad_container_descriptor_cut(
                #[trigger] demo_chunk(data@, demo_offsets_from(data@, 0)[j]),
            ),
        decreases offs@.len() - k,
    {
        let off = offs[k] as usize;
        assert(offs@[k as int] == demo_offsets_from(data@, 0)[k as int]);
        let chunk = slice_of(data, off, data.len());
        if is_descriptor_cut(chunk) {
            assert(chunk@ == demo_chunk(data@, demo_offsets_from(data@, 0)[k as int]));
            return false;
        }
        k += 1;
    }
    true
}

/// The images of a demo section: [`DemoImages::Whole`] when its table lists
/// no offset inside the section, else the images of the listed offsets that
/// leave at least 16 bytes, each taken as [`demo_image_is`] says.
pub fn extract_demo_images(data: &[u8]) -> (r: DemoImages)
    requires
        demo_readable(data@),
    ensures
        (r is Whole) <==> demo_offsets_from(data@, 0).len() == 0,
        r matches DemoImages::Images(v) ==> {
            let kept = demo_kept(data@, demo_offsets_from(data@, 0).len());
            &&& v@.len() == kept.len()
            &&& forall|j: int|
                0 <= j < v@.len() ==> (#[trigger] v@[j]).0 == kept[j].0 && demo_image_is(
                    data@,
                    kept[j].1,
                    v@[j].1,
                )
        },
{
    let offs = demo_offsets(data);
    if offs.len() == 0 {
        return DemoImages::Whole;
    }
    proof {
        lemma_demo_offsets(data@, 0);
    }
    let dlen = data.len();
    let mut v: Vec<(u64, BonusImage)> = Vec::new();
    let mut i: usize = 0;
    while i < offs.len()
        invariant
            dlen == data@.len(),
            demo_readable(data@),
            offs@.len() == demo_offsets_from(data@, 0).len(),
            forall|j: int| 0 <= j < offs@.len() ==> offs@[j] == #[trigger] demo_offsets_from(data@, 0)[j],
            forall|j: int|
                0 <= j < demo_offsets_from(data@, 0).len() ==> 0 < #[trigger] demo_offsets_from(
                    data@,
                    0,
                )[j] < data@.len(),
            i <= offs@.len(),
            v@.len() == demo_kept(data@, i as nat).len(),
            forall|j: int|
                0 <= j < v@.len() ==> (#[trigger] v@[j]).0 == demo_kept(data@, i as nat)[j].0
                    && demo_image_is(data@, demo_kept(data@, i as nat)[j].1, v@[j].1),
        decreases offs@.len() - i,
    {
        let ghost before = demo_kept(data@, i as nat);
        let off = offs[i] as usize;
        assert(off == demo_offsets_from(data@, 0)[i as int]);
        let remaining = data.len() - off;
        if remaining >= 16 {
            let chunk = slice_of(data, off, data.len());
            assert(chunk@ == demo_chunk(data@, off as int));
            let size = if remaining < 0x100000 {
                remaining
            } else {
                0x100000
            };
            let cut = slice_of(data, off, off + size);
            assert(cut@ == demo_cut(data@, off as int));
            let img = if chunk.len() >= 3 && chunk[0] == 0x57 && chunk[1] == 0x41 && chunk[2] == 0x44 {
                match decompress_wad(chunk) {
                    Ok(dec) => {
                        if dec.len() > 0 {
                            decode_bonus_image(&dec, true, true)
                        } else {
                            let w = copy_range(cut, 0, cut.len());
                            assert(w@ =~= cut@);
                            BonusImage::Wad(w)
                        }
                    },
                    Err(_) => {
                        let w = copy_range(cut, 0, cut.len());
                        assert(w@ =~= cut@);
                        BonusImage::Wad(w)
                    },
                }
            } else {
                decode_bonus_image(cut, true, false)
            };
            assert(demo_image_is(data@, off as int, img));
            let ghost old_v = v@;
            v.push((i as u64, img));
            assert(demo_kept(data@, (i + 1) as nat) =~= before.push((i as int, off as int)));
            assert(forall|j: int| 0 <= j < old_v.len() ==> v@[j] == old_v[j]);
        } else {
            assert(demo_kept(data@, (i + 1) as nat) =~= before);
        }
        i += 1;
    }
    DemoImages::Images(v)
}

} // verus!
