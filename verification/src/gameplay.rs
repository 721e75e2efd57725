//! The gameplay file (`gameplay.bin`) of a level: a table of 39 block
//! pointers, then the blocks (lights, cameras, instances, groups, paths,
//! areas, ...). Blocks are read as they lie in the file: records as their
//! 32-bit words (floating-point fields by their bit patterns), so that the
//! reading itself stays exact.
//!
//! Offsets are taken as integers: a block, record or count that the reading
//! needs and that does not lie in the file refuses the whole file, as does a
//! negative count (the reader would never finish on one).

use vstd::prelude::*;
use crate::common::{le_u16, le_u32, r_s16, r_s32, r_u16, r_u32, signed16, signed32};
use crate::wad::copy_range;

verus! {

/// The word at `off`, or 0 where it does not lie in the data.
pub open spec fn zw(data: Seq<u8>, off: int) -> u32 {
    if 0 <= off && off + 4 <= data.len() {
        le_u32(data, off) as u32
    } else {
        0
    }
}

/// The halfword at `off`, or 0 where it does not lie in the data.
pub open spec fn zh(data: Seq<u8>, off: int) -> u16 {
    if 0 <= off && off + 2 <= data.len() {
        le_u16(data, off) as u16
    } else {
        0
    }
}

/// The signed word at `off` (which lies in the data).
pub open spec fn sw(data: Seq<u8>, off: int) -> int {
    signed32(le_u32(data, off))
}

/// The word at `off`, 0 past the data.
fn word_or_zero(data: &[u8], off: u64) -> (r: u32)
    ensures
        r == zw(data@, off as int),
{
    if off <= data.len() as u64 && data.len() as u64 - off >= 4 {
        r_u32(data, off as usize)
    } else {
        0
    }
}

/// The halfword at `off`, 0 past the data.
fn half_or_zero(data: &[u8], off: u64) -> (r: u16)
    ensures
        r == zh(data@, off as int),
{
    if off <= data.len() as u64 && data.len() as u64 - off >= 2 {
        r_u16(data, off as usize)
    } else {
        0
    }
}

/// The signed word at `off`, if it lies in the data.
fn signed_word(data: &[u8], off: i64) -> (r: Option<i32>)
    ensures
        r is Some <==> 0 <= off && off + 4 <= data@.len(),
        r matches Some(v) ==> v == sw(data@, off as int),
{
    if off >= 0 && off as u64 <= data.len() as u64 && data.len() as u64 - off as u64 >= 4 {
        let w = r_u32(data, off as usize);
        Some(
            if w < 0x8000_0000 {
                w as i32
            } else {
                ((w - 0x8000_0000) as i32) - 0x7FFF_FFFF - 1
            },
        )
    } else {
        None
    }
}

/// Record `i` of a table: `nwords` words from `base + i * stride`, each 0
/// where it does not lie in the data.
pub open spec fn table_record(data: Seq<u8>, base: int, stride: int, nwords: int, i: int) -> Seq<
    u32,
> {
    Seq::new(nwords as nat, |j: int| zw(data, base + i * stride + 4 * j))
}

/// The first `strict` words of each of `count` records lie in the data.
pub open spec fn table_fits(len: int, base: int, stride: int, strict: int, count: int) -> bool {
    count == 0 || strict == 0 || (0 <= base && base + (count - 1) * stride + 4 * strict <= len)
}

/// The table of `count` records (see [`table_record`]).
pub open spec fn table_records(data: Seq<u8>, base: int, stride: int, nwords: int, count: int) -> Seq<
    Seq<u32>,
> {
    Seq::new(count as nat, |i: int| table_record(data, base, stride, nwords, i))
}

/// The vectors hold the sequences.
pub open spec fn rows_match(v: Seq<Vec<u32>>, s: Seq<Seq<u32>>) -> bool {
    v.len() == s.len() && forall|i: int| 0 <= i < s.len() ==> (#[trigger] v[i])@ == s[i]
}

/// One record of a table.
fn read_record(data: &[u8], off: u64, nwords: u64) -> (r: Vec<u32>)
    requires
        nwords <= 64,
        off <= 0x2_0000_0000_0000,
    ensures
        r@ == Seq::new(nwords as nat, |j: int| zw(data@, off + 4 * j)),
{
    let mut r: Vec<u32> = Vec::new();
    let mut j: u64 = 0;
    while j < nwords
        invariant
            j <= nwords <= 64,
            off <= 0x2_0000_0000_0000,
            r@ == Seq::new(j as nat, |q: int| zw(data@, off + 4 * q)),
        decreases nwords - j,
    {
        let w = word_or_zero(data, off + 4 * j);
        r.push(w);
        j += 1;
        assert(r@ =~= Seq::new(j as nat, |q: int| zw(data@, off + 4 * q)));
    }
    r
}

/// A table of `count` records of `nwords` words, `stride` bytes apart from
/// `base`; refused when the first `strict` words of a record do not lie in
/// the data.
pub fn read_table(data: &[u8], base: u64, stride: u64, nwords: u64, strict: u64, count: u64) -> (r:
    Option<Vec<Vec<u32>>>)
    requires
        strict <= nwords,
        4 * nwords <= stride <= 0x100,
        count <= 0x8000_0000,
        base <= 0x1_0000_0000_0000,
    ensures
        r is None <==> !table_fits(data@.len() as int, base as int, stride as int, strict as int, count as int),
        r matches Some(v) ==> rows_match(v@, table_records(data@, base as int, stride as int, nwords as int, count as int)),
{
    let len = data.len() as u64;
    if count > 0 && strict > 0 {
        assert((count - 1) * stride <= 0x8000_0000 * 0x100) by (nonlinear_arith)
            requires
                count <= 0x8000_0000,
                stride <= 0x100,
                count >= 1,
        ;
        if base + (count - 1) * stride + 4 * strict > len {
            return None;
        }
    }
    let ghost want = table_records(data@, base as int, stride as int, nwords as int, count as int);
    let mut rows: Vec<Vec<u32>> = Vec::new();
    let mut i: u64 = 0;
    while i < count
        invariant
            i <= count <= 0x8000_0000,
            strict <= nwords,
            4 * nwords <= stride <= 0x100,
            base <= 0x1_0000_0000_0000,
            want == table_records(data@, base as int, stride as int, nwords as int, count as int),
            rows@.len() == i,
            forall|q: int| 0 <= q < i ==> (#[trigger] rows@[q])@ == want[q],
        decreases count - i,
    {
        assert(i * stride <= 0x8000_0000 * 0x100) by (nonlinear_arith)
            requires
                i <= 0x8000_0000,
                stride <= 0x100,
        ;
        let off = base + i * stride;
        let rec = read_record(data, off, nwords);
        assert(rec@ =~= want[i as int]);
        rows.push(rec);
        i += 1;
    }
    Some(rows)
}

/// A table's vector against its description: refused together, and equal
/// records when read.
pub open spec fn opt_rows(r: Option<Vec<Vec<u32>>>, s: Option<Seq<Seq<u32>>>) -> bool {
    match s {
        None => r is None,
        Some(t) => r matches Some(v) && rows_match(v@, t),
    }
}

/// A counted table: a signed count at `ofs` (its block header has `hdr`
/// words, which must lie in the data), then the records from `ofs + first`
/// (see [`table_records`]); refused when a header word is missing, the
/// count is negative, or a record's first `strict` words are missing.
pub open spec fn counted_table(
    data: Seq<u8>,
    ofs: int,
    hdr: int,
    first: int,
    stride: int,
    nwords: int,
    strict: int,
) -> Option<Seq<Seq<u32>>> {
    if ofs < 0 || ofs + 4 * hdr > data.len() {
        None
    } else {
        let c = sw(data, ofs);
        if c < 0 || !table_fits(data.len() as int, ofs + first, stride, strict, c) {
            None
        } else {
            Some(table_records(data, ofs + first, stride, nwords, c))
        }
    }
}

/// A signed word is a 32-bit quantity.
pub proof fn lemma_sw_range(data: Seq<u8>, off: int)
    requires
        0 <= off,
        off + 4 <= data.len(),
    ensures
        -0x8000_0000 <= sw(data, off) < 0x8000_0000,
{
    assert(0 <= le_u32(data, off) < 0x1_0000_0000);
}

/// Read a counted table (see [`counted_table`]).
pub fn read_counted_table(
    data: &[u8],
    ofs: i64,
    hdr: u64,
    first: u64,
    stride: u64,
    nwords: u64,
    strict: u64,
) -> (r: Option<Vec<Vec<u32>>>)
    requires
        1 <= hdr <= 2,
        first <= 0x100,
        ofs <= 0x4_0000_0000,
        strict <= nwords,
        4 * nwords <= stride <= 0x100,
    ensures
        opt_rows(
            r,
            counted_table(
                data@,
                ofs as int,
                hdr as int,
                first as int,
                stride as int,
                nwords as int,
                strict as int,
            ),
        ),
{
    if ofs < 0 {
        return None;
    }
    let o = ofs as u64;
    if o + 4 * hdr > data.len() as u64 {
        return None;
    }
    let c = match signed_word(data, o as i64) {
        Some(c) => c,
        None => {
            return None;
        },
    };
    if c < 0 {
        return None;
    }
    read_table(data, o + first, stride, nwords, strict, c as u64)
}

/// Words `0..n` from `ofs`, which must all lie in the data.
pub open spec fn fixed_words(data: Seq<u8>, ofs: int, n: int) -> Option<Seq<u32>> {
    if ofs < 0 || ofs + 4 * n > data.len() {
        None
    } else {
        Some(Seq::new(n as nat, |j: int| zw(data, ofs + 4 * j)))
    }
}

/// Read `n` words from `ofs` (see [`fixed_words`]).
pub fn read_fixed_words(data: &[u8], ofs: i32, n: u64) -> (r: Option<Vec<u32>>)
    requires
        n <= 64,
    ensures
        match fixed_words(data@, ofs as int, n as int) {
            None => r is None,
            Some(w) => r matches Some(v) && v@ == w,
        },
{
    if ofs < 0 || ofs as u64 + 4 * n > data.len() as u64 {
        return None;
    }
    Some(read_record(data, ofs as u64, n))
}

/// The level settings block: its 22 leading words (colours, fog, death
/// height, ship placement, ...), and its chunk planes (7 words, 0x20 bytes
/// apart from 0x5c, as many as the signed count at 0x68 when positive).
pub struct LevelSettings {
    pub words: Vec<u32>,
    pub chunk_planes: Vec<Vec<u32>>,
}

/// The level settings at `ofs`: words and chunk planes, or refused.
pub open spec fn level_settings(data: Seq<u8>, ofs: int) -> Option<(Seq<u32>, Seq<Seq<u32>>)> {
    if ofs < 0 || ofs + 0x6c > data.len() {
        None
    } else {
        let words = Seq::new(22, |j: int| zw(data, ofs + 4 * j));
        let c = sw(data, ofs + 0x68);
        if c <= 0 {
            Some((words, Seq::empty()))
        } else if table_fits(data.len() as int, ofs + 0x5c, 0x20, 4, c) {
            Some((words, table_records(data, ofs + 0x5c, 0x20, 7, c)))
        } else {
            None
        }
    }
}

/// Read the level settings block (see [`level_settings`]).
pub fn parse_level_settings(data: &[u8], ofs: i32) -> (r: Option<LevelSettings>)
    ensures
        match level_settings(data@, ofs as int) {
            None => r is None,
            Some((w, planes)) => r matches Some(ls) && ls.words@ == w && rows_match(
                ls.chunk_planes@,
                planes,
            ),
        },
{
    if ofs < 0 || ofs as u64 + 0x6c > data.len() as u64 {
        return None;
    }
    let o = ofs as u64;
    let words = read_record(data, o, 22);
    let c = match signed_word(data, (o + 0x68) as i64) {
        Some(c) => c,
        None => {
            return None;
        },
    };
    if c <= 0 {
        let planes: Vec<Vec<u32>> = Vec::new();
        return Some(LevelSettings { words, chunk_planes: planes });
    }
    match read_table(data, o + 0x5c, 0x20, 7, 4, c as u64) {
        Some(planes) => Some(LevelSettings { words, chunk_planes: planes }),
        None => None,
    }
}

/// End of the NUL-terminated string at `s`: its first NUL, or the end of
/// the data.
pub open spec fn nul_from(data: Seq<u8>, s: int) -> int
    decreases data.len() - s,
{
    if s < 0 || s >= data.len() {
        data.len() as int
    } else if data[s] == 0u8 {
        s
    } else {
        nul_from(data, s + 1)
    }
}

/// The bytes of the NUL-terminated string at `s` (which lies in the data).
fn c_string(data: &[u8], s: u64) -> (r: Vec<u8>)
    requires
        s <= data@.len(),
    ensures
        r@ == data@.subrange(s as int, nul_from(data@, s as int)),
{
    let len = data.len();
    let mut k: usize = s as usize;
    while k < len && data[k] != 0
        invariant
            s <= k <= len == data@.len(),
            nul_from(data@, s as int) == nul_from(data@, k as int),
        decreases len - k,
    {
        k += 1;
    }
    copy_range(data, s as usize, k)
}

/// A help message: its string offset, its six ids (id, short id, third
/// person id, co-op id, voice sample, character) and its text bytes.
pub struct HelpEntry {
    pub str_off: i32,
    pub ids: Vec<i16>,
    pub text: Vec<u8>,
}

/// A help message block: its signed count and its messages.
pub struct HelpMessages {
    pub count: i32,
    pub entries: Vec<HelpEntry>,
}

/// Messages read from a block with count `c`: `c`, at most 500 (500 for a
/// negative count, read as a huge one).
pub open spec fn help_count(c: int) -> int {
    if c < 0 || c > 500 {
        500
    } else {
        c
    }
}

/// Message `i` of the block at `ofs` can be read: its string offset lies
/// in the data, and so does the start of its string when the offset is
/// positive.
pub open spec fn help_entry_ok(data: Seq<u8>, ofs: int, i: int) -> bool {
    let eo = ofs + 8 + 16 * i;
    &&& eo + 4 <= data.len()
    &&& sw(data, eo) > 0 ==> ofs + 8 + sw(data, eo) <= data.len()
}

/// The help block at `ofs` can be read.
pub open spec fn help_ok(data: Seq<u8>, ofs: int) -> bool {
    &&& 0 <= ofs
    &&& ofs + 8 <= data.len()
    &&& forall|i: int| 0 <= i < help_count(sw(data, ofs)) ==> #[trigger] help_entry_ok(data, ofs, i)
}

/// Message `i` of the help block at `ofs` as read.
pub open spec fn help_entry_is(data: Seq<u8>, ofs: int, i: int, e: HelpEntry) -> bool {
    let eo = ofs + 8 + 16 * i;
    let so = sw(data, eo);
    &&& e.str_off == so
    &&& e.ids@ == Seq::new(6, |k: int| signed16(zh(data, eo + 4 + 2 * k) as int) as i16)
    &&& e.text@ == (if so > 0 {
        data.subrange(ofs + 8 + so, nul_from(data, ofs + 8 + so))
    } else {
        Seq::empty()
    })
}

/// Read a help message block (see [`help_ok`], [`help_entry_is`]).
pub fn parse_help_messages(data: &[u8], ofs: i32) -> (r: Option<HelpMessages>)
    ensures
        !help_ok(data@, ofs as int) ==> r is None,
        help_ok(data@, ofs as int) ==> (r matches Some(h) && h.count == sw(data@, ofs as int)
            && h.entries@.len() == help_count(sw(data@, ofs as int)) && forall|i: int|
            0 <= i < h.entries@.len() ==> help_entry_is(
                data@,
                ofs as int,
                i,
                #[trigger] h.entries@[i],
            )),
{
    if ofs < 0 || ofs as u64 + 8 > data.len() as u64 {
        return None;
    }
    let o = ofs as u64;
    let count = match signed_word(data, o as i64) {
        Some(c) => c,
        None => {
            return None;
        },
    };
    let n: u64 = if count < 0 || count > 500 {
        500
    } else {
        count as u64
    };
    let len = data.len() as u64;
    let mut entries: Vec<HelpEntry> = Vec::new();
    let mut i: u64 = 0;
    while i < n
        invariant
            i <= n == help_count(count as int) <= 500,
            count == sw(data@, ofs as int),
            o == ofs,
            0 <= ofs,
            o + 8 <= data@.len() == len,
            entries@.len() == i,
            forall|q: int| 0 <= q < i ==> #[trigger] help_entry_ok(data@, ofs as int, q),
            forall|q: int| 0 <= q < i ==> help_entry_is(data@, ofs as int, q, #[trigger] entries@[q]),
        decreases n - i,
    {
        let eo = o + 8 + 16 * i;
        let so = match signed_word(data, eo as i64) {
            Some(v) => v,
            None => {
                assert(!help_entry_ok(data@, ofs as int, i as int));
                return None;
            },
        };
        let mut ids: Vec<i16> = Vec::new();
        let mut k: u64 = 0;
        while k < 6
            invariant
                k <= 6,
                eo == ofs + 8 + 16 * i,
                eo <= 0x1_0000_0000,
                ids@ == Seq::new(k as nat, |q: int| signed16(zh(data@, eo + 4 + 2 * q) as int) as i16),
            decreases 6 - k,
        {
            let h = half_or_zero(data, eo + 4 + 2 * k);
            let v: i16 = if h < 0x8000 {
                h as i16
            } else {
                ((h - 0x8000) as i16) - 0x7FFF - 1
            };
            ids.push(v);
            k += 1;
            assert(ids@ =~= Seq::new(k as nat, |q: int| signed16(zh(data@, eo + 4 + 2 * q) as int) as i16));
        }
        let text = if so > 0 {
            let s = o + 8 + so as u64;
            if s > len {
                assert(!help_entry_ok(data@, ofs as int, i as int));
                return None;
            }
            c_string(data, s)
        } else {
            Vec::new()
        };
        let e = HelpEntry { str_off: so, ids, text };
        assert(help_entry_ok(data@, ofs as int, i as int));
        assert(help_entry_is(data@, ofs as int, i as int, e));
        let ghost q0 = i as int;
        entries.push(e);
        assert(entries@[q0] == e);
        i += 1;
    }
    Some(HelpMessages { count, entries })
}

/// A signed 32-bit quantity as a 64-bit offset: negative ones wrap to the
/// top of the range, past any data.
pub open spec fn as_offset(p: int) -> int {
    if p < 0 {
        p + 0x1_0000_0000_0000_0000
    } else {
        p
    }
}

/// Offset where a group block's member data starts: after the pointer
/// table, rounded up to 16 bytes.
pub open spec fn group_data_start(ofs: int, count: int) -> int {
    let d = ofs + 0x10 + 4 * count;
    if d % 16 != 0 {
        d + 16 - d % 16
    } else {
        d
    }
}

/// The members of a group from member `idx` on, while `2 * idx < size`:
/// halfwords (0 past the data) without their top bit; a member with its top
/// bit set is the group's last.
pub open spec fn group_members(data: Seq<u8>, dofs: int, idx: int, size: int) -> Seq<u16>
    decreases size - idx,
{
    if idx < 0 || 2 * idx >= size {
        Seq::empty()
    } else {
        let m = zh(data, dofs + 2 * idx);
        if m >= 0x8000 {
            seq![(m - 0x8000) as u16]
        } else {
            seq![m] + group_members(data, dofs, idx + 1, size)
        }
    }
}

/// Group `g` of the group block at `ofs` with `count` groups and member
/// data of `size` bytes: empty for a negative pointer, else its members
/// from the pointer's halfword on.
pub open spec fn group_at(data: Seq<u8>, ofs: int, count: int, size: int, g: int) -> Seq<u16> {
    let ptr = sw(data, ofs + 0x10 + 4 * g);
    if ptr >= 0 {
        group_members(data, group_data_start(ofs, count), ptr / 2, as_offset(size))
    } else {
        Seq::empty()
    }
}

/// The group block at `ofs` (signed count, member data size, pointers),
/// or refused.
pub open spec fn groups(data: Seq<u8>, ofs: int) -> Option<Seq<Seq<u16>>> {
    if ofs < 0 || ofs + 8 > data.len() {
        None
    } else {
        let c = sw(data, ofs);
        let size = sw(data, ofs + 4);
        if c == 0 {
            Some(Seq::empty())
        } else if c < 0 || ofs + 0x10 + 4 * c > data.len() {
            None
        } else {
            Some(Seq::new(c as nat, |g: int| group_at(data, ofs, c, size, g)))
        }
    }
}

/// The members of one group (see [`group_members`]).
fn read_group_members(data: &[u8], dofs: u64, start: u64, size: u64) -> (r: Vec<u16>)
    requires
        dofs <= 0x1_0000_0000_0000,
    ensures
        r@ == group_members(data@, dofs as int, start as int, size as int),
{
    let len = data.len() as u64;
    let half = size / 2 + size % 2;
    let ghost want = group_members(data@, dofs as int, start as int, size as int);
    let mut members: Vec<u16> = Vec::new();
    let mut idx = start;
    let mut done = false;
    while !done && idx < half
        invariant
            half == size / 2 + size % 2,
            len == data@.len(),
            dofs <= 0x1_0000_0000_0000,
            want == group_members(data@, dofs as int, start as int, size as int),
            !done ==> members@ + group_members(data@, dofs as int, idx as int, size as int) == want,
            done ==> members@ == want,
        decreases half - idx,
    {
        let m: u16 = if dofs <= len && idx <= (len - dofs) / 2 {
            half_or_zero(data, dofs + 2 * idx)
        } else {
            0
        };
        assert(m == zh(data@, dofs + 2 * idx));
        let ghost rest = group_members(data@, dofs as int, idx + 1, size as int);
        if m >= 0x8000 {
            proof {
                crate::common::lemma_low15(m);
            }
            members.push(m & 0x7fff);
            done = true;
        } else {
            members.push(m);
            assert(members@ + rest =~= members@.drop_last() + (seq![m] + rest));
        }
        idx += 1;
    }
    proof {
        if !done {
            assert(members@ + Seq::<u16>::empty() =~= members@);
        }
    }
    members
}

/// The groups as vectors.
pub open spec fn groups_match(v: Seq<Vec<u16>>, s: Seq<Seq<u16>>) -> bool {
    v.len() == s.len() && forall|i: int| 0 <= i < s.len() ==> (#[trigger] v[i])@ == s[i]
}

/// Read a group block (see [`groups`]).
pub fn parse_groups(data: &[u8], ofs: i32) -> (r: Option<Vec<Vec<u16>>>)
    ensures
        match groups(data@, ofs as int) {
            None => r is None,
            Some(gs) => r matches Some(v) && groups_match(v@, gs),
        },
{
    if ofs < 0 || ofs as u64 + 8 > data.len() as u64 {
        return None;
    }
    let o = ofs as u64;
    let c = match signed_word(data, o as i64) {
        Some(v) => v,
        None => {
            return None;
        },
    };
    let size = match signed_word(data, (o + 4) as i64) {
        Some(v) => v,
        None => {
            return None;
        },
    };
    let mut out: Vec<Vec<u16>> = Vec::new();
    if c == 0 {
        return Some(out);
    }
    if c < 0 || o + 0x10 + 4 * (c as u64) > data.len() as u64 {
        return None;
    }
    let n = c as u64;
    let d = o + 0x10 + 4 * n;
    let dofs = if d % 16 != 0 {
        d + 16 - d % 16
    } else {
        d
    };
    let size64: u64 = if size < 0 {
        let neg = (-(size as i64)) as u64;
        0xFFFF_FFFF_FFFF_FFFF - (neg - 1)
    } else {
        size as u64
    };
    assert(size64 == as_offset(size as int));
    let ghost gs = groups(data@, ofs as int)->0;
    let mut g: u64 = 0;
    while g < n
        invariant
            g <= n == c,
            0 < c,
            o == ofs,
            o + 0x10 + 4 * n <= data@.len(),
            size == sw(data@, ofs + 4),
            c == sw(data@, ofs as int),
            dofs == group_data_start(ofs as int, c as int),
            size64 == as_offset(size as int),
            gs == groups(data@, ofs as int)->0,
            gs.len() == c,
            out@.len() == g,
            forall|q: int| 0 <= q < g ==> (#[trigger] out@[q])@ == gs[q],
        decreases n - g,
    {
        let ptr = match signed_word(data, (o + 0x10 + 4 * g) as i64) {
            Some(v) => v,
            None => {
                return None;
            },
        };
        let members = if ptr >= 0 {
            read_group_members(data, dofs, ptr as u64 / 2, size64)
        } else {
            Vec::new()
        };
        assert(members@ == gs[g as int]);
        out.push(members);
        g += 1;
    }
    Some(out)
}

/// The tie ambient colour lists from `ofs` on: each a signed halfword index
/// (-1 ends the lists), a halfword count and `count` halfwords of colour
/// bytes (cut at the end of the data); refused when a list starts past it.
pub open spec fn rgbas_from(data: Seq<u8>, ofs: int) -> Option<Seq<Seq<u8>>>
    decreases data.len() - ofs,
{
    if ofs < 0 {
        None
    } else if signed16(zh(data, ofs) as int) == -1 {
        Some(Seq::empty())
    } else {
        let c = zh(data, ofs + 2) as int;
        let start = ofs + 4;
        let end = if start + 2 * c < data.len() {
            start + 2 * c
        } else {
            data.len() as int
        };
        if start > end {
            None
        } else {
            match rgbas_from(data, end) {
                Some(rest) => Some(seq![data.subrange(start, end)] + rest),
                None => None,
            }
        }
    }
}

/// The byte lists as vectors.
pub open spec fn bytes_match(v: Seq<Vec<u8>>, s: Seq<Seq<u8>>) -> bool {
    v.len() == s.len() && forall|i: int| 0 <= i < s.len() ==> (#[trigger] v[i])@ == s[i]
}

/// Read the tie ambient colour lists (see [`rgbas_from`]).
pub fn parse_tie_ambient_rgbas(data: &[u8], ofs: i32) -> (r: Option<Vec<Vec<u8>>>)
    ensures
        match rgbas_from(data@, ofs as int) {
            None => r is None,
            Some(s) => r matches Some(v) && bytes_match(v@, s),
        },
{
    if ofs < 0 {
        return None;
    }
    let len = data.len() as u64;
    let ghost want = rgbas_from(data@, ofs as int);
    let mut lists: Vec<Vec<u8>> = Vec::new();
    let mut o = ofs as u64;
    if o > len {
        return None;
    }
    loop
        invariant
            len == data@.len(),
            data@.len() <= usize::MAX,
            o <= len,
            want == rgbas_from(data@, ofs as int),
            want == match rgbas_from(data@, o as int) {
                Some(rest) => Some(lists@.map_values(|v: Vec<u8>| v@) + rest),
                None => None::<Seq<Seq<u8>>>,
            },
        decreases len - o,
    {
        let h = half_or_zero(data, o);
        if h == 0xFFFF {
            assert(signed16(zh(data@, o as int) as int) == -1);
            assert(lists@.map_values(|v: Vec<u8>| v@) + Seq::<Seq<u8>>::empty() =~= lists@.map_values(
                |v: Vec<u8>| v@,
            ));
            proof {
                assert forall|i: int| 0 <= i < lists@.len() implies (#[trigger] lists@[i])@
                    == want->0[i] by {
                    assert(lists@.map_values(|v: Vec<u8>| v@)[i] == lists@[i]@);
                }
            }
            return Some(lists);
        }
        assert(signed16(zh(data@, o as int) as int) != -1);
        if len - o < 4 {
            return None;
        }
        let c = half_or_zero(data, o + 2) as u64;
        let start = o + 4;
        let end = if 2 * c < len - start {
            start + 2 * c
        } else {
            len
        };
        let chunk = copy_range(data, start as usize, end as usize);
        let ghost prev = lists@.map_values(|v: Vec<u8>| v@);
        lists.push(chunk);
        proof {
            assert(lists@.map_values(|v: Vec<u8>| v@) =~= prev.push(chunk@));
            assert(c == zh(data@, o + 2));
            assert(chunk@ == data@.subrange(o + 4, end as int));
            assert(rgbas_from(data@, o as int) == match rgbas_from(data@, end as int) {
                Some(rest) => Some(seq![chunk@] + rest),
                None => None::<Seq<Seq<u8>>>,
            });
            match rgbas_from(data@, end as int) {
                Some(rest) => {
                    assert(prev + (seq![chunk@] + rest) =~= prev.push(chunk@) + rest);
                },
                None => {},
            }
        }
        o = end;
    }
}

/// The shared data block: its data bytes and its pointer records (two
/// halfwords, pvar index and pointer offset, then a signed shared data
/// offset; 8 bytes each, after the data).
pub struct SharedData {
    pub data: Vec<u8>,
    pub pointers: Vec<Vec<u32>>,
}

/// The shared data block at `ofs` (signed data size and pointer count,
/// then the data at 0x10 and the pointer records), or refused.
pub open spec fn shared_data(data: Seq<u8>, ofs: int) -> Option<(Seq<u8>, Seq<Seq<u32>>)> {
    if ofs < 0 || ofs + 8 > data.len() {
        None
    } else {
        let ds = sw(data, ofs);
        let pc = sw(data, ofs + 4);
        if ds < 0 || ofs + 0x10 + ds > data.len() || pc < 0 || !table_fits(
            data.len() as int,
            ofs + 0x10 + ds,
            8,
            2,
            pc,
        ) {
            None
        } else {
            Some(
                (
                    data.subrange(ofs + 0x10, ofs + 0x10 + ds),
                    table_records(data, ofs + 0x10 + ds, 8, 2, pc),
                ),
            )
        }
    }
}

/// Read the shared data block (see [`shared_data`]).
pub fn parse_shared_data(data: &[u8], ofs: i32) -> (r: Option<SharedData>)
    ensures
        match shared_data(data@, ofs as int) {
            None => r is None,
            Some((d, p)) => r matches Some(sd) && sd.data@ == d && rows_match(sd.pointers@, p),
        },
{
    if ofs < 0 || ofs as u64 + 8 > data.len() as u64 {
        return None;
    }
    let o = ofs as u64;
    let ds = match signed_word(data, o as i64) {
        Some(v) => v,
        None => {
            return None;
        },
    };
    let pc = match signed_word(data, (o + 4) as i64) {
        Some(v) => v,
        None => {
            return None;
        },
    };
    if ds < 0 || o + 0x10 + ds as u64 > data.len() as u64 || pc < 0 {
        return None;
    }
    let bytes = copy_range(data, (o + 0x10) as usize, (o + 0x10 + ds as u64) as usize);
    match read_table(data, o + 0x10 + ds as u64, 8, 2, 2, pc as u64) {
        Some(p) => Some(SharedData { data: bytes, pointers: p }),
        None => None,
    }
}

/// The pvar fixups from `ofs` on: (signed pvar index, offset) pairs of 8
/// bytes up to one with a negative index; refused when a pair does not lie
/// in the data.
pub open spec fn fixups_from(data: Seq<u8>, ofs: int) -> Option<Seq<(i32, u32)>>
    decreases data.len() - ofs,
{
    if ofs < 0 || ofs + 8 > data.len() {
        None
    } else if sw(data, ofs) < 0 {
        Some(Seq::empty())
    } else {
        match fixups_from(data, ofs + 8) {
            Some(rest) => Some(seq![(sw(data, ofs) as i32, le_u32(data, ofs + 4) as u32)] + rest),
            None => None,
        }
    }
}

/// Read a pvar fixup list (see [`fixups_from`]).
pub fn parse_fixups(data: &[u8], ofs: i32) -> (r: Option<Vec<(i32, u32)>>)
    ensures
        match fixups_from(data@, ofs as int) {
            None => r is None,
            Some(f) => r matches Some(v) && v@ == f,
        },
{
    if ofs < 0 {
        return None;
    }
    let len = data.len() as u64;
    let ghost want = fixups_from(data@, ofs as int);
    let mut out: Vec<(i32, u32)> = Vec::new();
    let mut o = ofs as u64;
    if o > len {
        return None;
    }
    loop
        invariant
            len == data@.len(),
            data@.len() <= usize::MAX,
            o <= len,
            want == fixups_from(data@, ofs as int),
            want == match fixups_from(data@, o as int) {
                Some(rest) => Some(out@ + rest),
                None => None::<Seq<(i32, u32)>>,
            },
        decreases len - o,
    {
        if len - o < 8 {
            return None;
        }
        let idx = r_u32(data, o as usize);
        let off = r_u32(data, (o + 4) as usize);
        if idx >= 0x8000_0000 {
            assert(out@ + Seq::<(i32, u32)>::empty() =~= out@);
            return Some(out);
        }
        let ghost prev = out@;
        out.push((idx as i32, off));
        proof {
            match fixups_from(data@, o + 8) {
                Some(rest) => {
                    assert(prev + (seq![(idx as i32, off)] + rest) =~= out@ + rest);
                },
                None => {},
            }
        }
        o = o + 8;
    }
}

/// The first pointer (in pointer order) among those of the first `n`
/// other than `k` whose offset lies past `k`'s.
pub open spec fn next_pointer(ptrs: Seq<i32>, k: int, n: int) -> Option<i32>
    decreases n,
{
    if n <= 0 {
        None
    } else {
        let prev = next_pointer(ptrs, k, n - 1);
        let p = ptrs[n - 1];
        if n - 1 != k && as_offset(p as int) > as_offset(ptrs[k] as int) {
            match prev {
                Some(q) => if p < q {
                    Some(p)
                } else {
                    Some(q)
                },
                None => Some(p),
            }
        } else {
            prev
        }
    }
}

/// Size of block `k`: from its offset to the next block's (or to
/// `default`), 0 when that lies before it.
pub open spec fn block_extent(ptrs: Seq<i32>, k: int, default: int) -> int {
    let start = as_offset(ptrs[k] as int);
    let end = match next_pointer(ptrs, k, ptrs.len() as int) {
        Some(q) => as_offset(q as int),
        None => default,
    };
    if end > start {
        end - start
    } else {
        0
    }
}

/// A pointer's 64-bit offset.
fn offset64(p: i32) -> (r: u64)
    ensures
        r == as_offset(p as int),
{
    if p < 0 {
        let neg = (-(p as i64)) as u64;
        0xFFFF_FFFF_FFFF_FFFF - (neg - 1)
    } else {
        p as u64
    }
}

/// Size of block `k` (see [`block_extent`]).
pub fn block_size(ptrs: &[i32], k: usize, default: u64) -> (r: u64)
    requires
        k < ptrs@.len(),
    ensures
        r == block_extent(ptrs@, k as int, default as int),
{
    let start = offset64(ptrs[k]);
    let mut best: Option<i32> = None;
    let mut j: usize = 0;
    while j < ptrs.len()
        invariant
            j <= ptrs@.len(),
            k < ptrs@.len(),
            start == as_offset(ptrs@[k as int] as int),
            best == next_pointer(ptrs@, k as int, j as int),
        decreases ptrs@.len() - j,
    {
        let p = ptrs[j];
        if j != k && offset64(p) > start {
            best = match best {
                Some(q) => if p < q {
                    Some(p)
                } else {
                    Some(q)
                },
                None => Some(p),
            };
        }
        j += 1;
    }
    let end = match best {
        Some(q) => offset64(q),
        None => default,
    };
    if end > start {
        end - start
    } else {
        0
    }
}

/// A spline at `so`: its signed vertex count, then the vertices (4 words,
/// 16 bytes apart from 0x10); refused when the count does not lie in the
/// data or is negative.
pub open spec fn spline_at(data: Seq<u8>, so: int) -> Option<Seq<Seq<u32>>> {
    counted_table(data, so, 1, 0x10, 16, 4, 0)
}

/// Spline `i` of a list whose offsets (relative to `abs`) start at `t`.
pub open spec fn listed_spline(data: Seq<u8>, abs: int, t: int, i: int) -> Option<Seq<Seq<u32>>> {
    if t + 4 * i + 4 > data.len() {
        None
    } else {
        spline_at(data, abs + sw(data, t + 4 * i))
    }
}

/// The `n` splines listed at `t` can all be read.
pub open spec fn splines_ok(data: Seq<u8>, abs: int, t: int, n: int) -> bool {
    forall|i: int| 0 <= i < n ==> #[trigger] listed_spline(data, abs, t, i) is Some
}

/// The splines as vectors.
pub open spec fn splines_match(v: Seq<Vec<Vec<u32>>>, data: Seq<u8>, abs: int, t: int) -> bool {
    forall|i: int| 0 <= i < v.len() ==> rows_match((#[trigger] v[i])@, listed_spline(data, abs, t, i)->0)
}

/// Read the `n` splines whose offsets (relative to `abs`) are listed at `t`.
fn read_splines(data: &[u8], abs: i64, t: u64, n: u64) -> (r: Option<Vec<Vec<Vec<u32>>>>)
    requires
        0 <= t <= 0x100_0000_0000,
        -0x1_0000_0000 <= abs <= 0x1_0000_0000,
        n <= 0x8000_0000,
    ensures
        r is None <==> !splines_ok(data@, abs as int, t as int, n as int),
        r matches Some(v) ==> v@.len() == n && splines_match(v@, data@, abs as int, t as int),
{
    let mut out: Vec<Vec<Vec<u32>>> = Vec::new();
    let mut i: u64 = 0;
    while i < n
        invariant
            i <= n <= 0x8000_0000,
            0 <= t <= 0x100_0000_0000,
            -0x1_0000_0000 <= abs <= 0x1_0000_0000,
            out@.len() == i,
            forall|q: int| 0 <= q < i ==> #[trigger] listed_spline(data@, abs as int, t as int, q) is Some,
            splines_match(out@, data@, abs as int, t as int),
        decreases n - i,
    {
        let rel = match signed_word(data, (t + 4 * i) as i64) {
            Some(v) => v,
            None => {
                assert(listed_spline(data@, abs as int, t as int, i as int) is None);
                return None;
            },
        };
        let so = abs + rel as i64;
        let sp = if so < 0 {
            None
        } else {
            read_counted_table(data, so, 1, 0x10, 16, 4, 0)
        };
        match sp {
            Some(rows) => {
                let ghost q0 = i as int;
                out.push(rows);
                assert(out@[q0] == rows);
            },
            None => {
                assert(listed_spline(data@, abs as int, t as int, i as int) is None);
                return None;
            },
        }
        i += 1;
    }
    Some(out)
}

/// The path block at `ofs` (signed spline count and data offset, then the
/// spline offsets at 0x10, relative to `ofs` plus the data offset), or refused.
pub open spec fn paths_ok(data: Seq<u8>, ofs: int) -> bool {
    &&& 0 <= ofs
    &&& ofs + 8 <= data.len()
    &&& sw(data, ofs) >= 0
    &&& splines_ok(data, ofs + sw(data, ofs + 4), ofs + 0x10, sw(data, ofs))
}

/// Read the path block (see [`paths_ok`], [`listed_spline`]).
pub fn parse_paths(data: &[u8], ofs: i32) -> (r: Option<Vec<Vec<Vec<u32>>>>)
    ensures
        r is None <==> !paths_ok(data@, ofs as int),
        r matches Some(v) ==> v@.len() == sw(data@, ofs as int) && splines_match(
            v@,
            data@,
            ofs + sw(data@, ofs + 4),
            ofs + 0x10,
        ),
{
    if ofs < 0 || ofs as u64 + 8 > data.len() as u64 {
        return None;
    }
    let o = ofs as u64;
    let sc = match signed_word(data, o as i64) {
        Some(v) => v,
        None => {
            return None;
        },
    };
    let doff = match signed_word(data, (o + 4) as i64) {
        Some(v) => v,
        None => {
            return None;
        },
    };
    if sc < 0 {
        return None;
    }
    read_splines(data, ofs as i64 + doff as i64, o + 0x10, sc as u64)
}

/// The grind path block: a record per path (bounding sphere, an unknown
/// word, wrap and inactive flags; 7 words, 0x20 bytes apart from 0x10), then
/// the spline offsets after the records.
pub struct GrindPaths {
    pub records: Vec<Vec<u32>>,
    pub splines: Vec<Vec<Vec<u32>>>,
}

/// The grind path block at `ofs` can be read.
pub open spec fn grind_paths_ok(data: Seq<u8>, ofs: int) -> bool {
    let sc = sw(data, ofs);
    &&& 0 <= ofs
    &&& ofs + 8 <= data.len()
    &&& sc >= 0
    &&& table_fits(data.len() as int, ofs + 0x10, 0x20, 7, sc)
    &&& splines_ok(data, ofs + sw(data, ofs + 4), ofs + 0x10 + 0x20 * sc, sc)
}

/// Read the grind path block (see [`grind_paths_ok`]).
pub fn parse_grind_paths(data: &[u8], ofs: i32) -> (r: Option<GrindPaths>)
    ensures
        r is None <==> !grind_paths_ok(data@, ofs as int),
        r matches Some(g) ==> {
            let sc = sw(data@, ofs as int);
            &&& rows_match(g.records@, table_records(data@, ofs + 0x10, 0x20, 7, sc))
            &&& g.splines@.len() == sc
            &&& splines_match(g.splines@, data@, ofs + sw(data@, ofs + 4), ofs + 0x10 + 0x20 * sc)
        },
{
    if ofs < 0 || ofs as u64 + 8 > data.len() as u64 {
        return None;
    }
    let o = ofs as u64;
    let sc = match signed_word(data, o as i64) {
        Some(v) => v,
        None => {
            return None;
        },
    };
    let doff = match signed_word(data, (o + 4) as i64) {
        Some(v) => v,
        None => {
            return None;
        },
    };
    if sc < 0 {
        return None;
    }
    let n = sc as u64;
    let records = match read_table(data, o + 0x10, 0x20, 7, 7, n) {
        Some(r) => r,
        None => {
            return None;
        },
    };
    match read_splines(data, ofs as i64 + doff as i64, o + 0x10 + 0x20 * n, n) {
        Some(sp) => Some(GrindPaths { records, splines: sp }),
        None => None,
    }
}

/// The point light block at `ofs`: a signed count, then per light seven
/// halfwords (position, colour, radius; 0 past the data), 16 bytes apart
/// from 0x10; refused when the count is missing or negative.
pub open spec fn point_lights(data: Seq<u8>, ofs: int) -> Option<Seq<Seq<u16>>> {
    if ofs < 0 || ofs + 4 > data.len() || sw(data, ofs) < 0 {
        None
    } else {
        Some(
            Seq::new(
                sw(data, ofs) as nat,
                |i: int| Seq::new(7, |k: int| zh(data, ofs + 0x10 + 16 * i + 2 * k)),
            ),
        )
    }
}

/// Read the point light block (see [`point_lights`]).
pub fn parse_point_lights(data: &[u8], ofs: i32) -> (r: Option<Vec<Vec<u16>>>)
    ensures
        match point_lights(data@, ofs as int) {
            None => r is None,
            Some(s) => r matches Some(v) && groups_match(v@, s),
        },
{
    if ofs < 0 {
        return None;
    }
    let c = match signed_word(data, ofs as i64) {
        Some(v) => v,
        None => {
            return None;
        },
    };
    if c < 0 {
        return None;
    }
    let ghost want = point_lights(data@, ofs as int)->0;
    let o = ofs as u64;
    let n = c as u64;
    let mut out: Vec<Vec<u16>> = Vec::new();
    let mut i: u64 = 0;
    while i < n
        invariant
            i <= n == c,
            0 <= c,
            o == ofs,
            want == point_lights(data@, ofs as int)->0,
            point_lights(data@, ofs as int) is Some,
            want.len() == n,
            out@.len() == i,
            forall|q: int| 0 <= q < i ==> (#[trigger] out@[q])@ == want[q],
        decreases n - i,
    {
        let base = o + 0x10 + 16 * i;
        let mut rec: Vec<u16> = Vec::new();
        let mut k: u64 = 0;
        while k < 7
            invariant
                k <= 7,
                base == ofs + 0x10 + 16 * i,
                i < n <= 0x8000_0000,
                rec@ == Seq::new(k as nat, |q: int| zh(data@, base + 2 * q)),
            decreases 7 - k,
        {
            rec.push(half_or_zero(data, base + 2 * k));
            k += 1;
            assert(rec@ =~= Seq::new(k as nat, |q: int| zh(data@, base + 2 * q)));
        }
        assert(rec@ =~= want[i as int]);
        out.push(rec);
        i += 1;
    }
    Some(out)
}

/// An area: its record (bounding sphere, five part counts, last update
/// time, five link offsets; 12 words), its part counts, and for each of
/// the five parts (paths, cuboids, spheres, cylinders, negative cuboids)
/// the linked indices (none unless its count is positive).
pub struct Area {
    pub words: Vec<u32>,
    pub part_counts: Vec<i16>,
    pub links: Vec<Vec<i32>>,
}

/// The area block: its signed area count, the five part table offsets, and
/// the areas.
pub struct Areas {
    pub count: i32,
    pub parts: Vec<i32>,
    pub areas: Vec<Area>,
}

/// Count of part `j` of the area record at `ao`.
pub open spec fn area_part_count(data: Seq<u8>, ao: int, j: int) -> int {
    signed16(le_u16(data, ao + 0x10 + 2 * j))
}

/// Where the links of part `j` of the area record at `ao` start: the
/// header, plus the part's table offset, plus the record's link offset.
pub open spec fn area_link_off(data: Seq<u8>, hdr: int, ao: int, j: int) -> int {
    hdr + sw(data, hdr + 4 + 4 * j) + sw(data, ao + 0x1c + 4 * j)
}

/// The links of part `j` lie in the data (when its count is positive).
pub open spec fn area_link_ok(data: Seq<u8>, hdr: int, ao: int, j: int) -> bool {
    let pc = area_part_count(data, ao, j);
    let lo = area_link_off(data, hdr, ao, j);
    pc > 0 ==> 0 <= lo && lo + 4 * pc <= data.len()
}

/// The links of part `j` of the area record at `ao`.
pub open spec fn area_links(data: Seq<u8>, hdr: int, ao: int, j: int) -> Seq<i32> {
    let pc = area_part_count(data, ao, j);
    let lo = area_link_off(data, hdr, ao, j);
    if pc > 0 {
        Seq::new(pc as nat, |k: int| sw(data, lo + 4 * k) as i32)
    } else {
        Seq::empty()
    }
}

/// The area block at `ofs` (a block size word, then at `ofs + 4` the area
/// count and five part table offsets, then the area records from 0x20)
/// can be read.
pub open spec fn areas_ok(data: Seq<u8>, ofs: int) -> bool {
    let hdr = ofs + 4;
    let ac = sw(data, hdr);
    &&& 0 <= ofs
    &&& ofs + 0x1c <= data.len()
    &&& ac >= 0
    &&& table_fits(data.len() as int, hdr + 0x20, 0x30, 12, ac)
    &&& forall|i: int, j: int|
        0 <= i < ac && 0 <= j < 5 ==> #[trigger] area_link_ok(data, hdr, hdr + 0x20 + 0x30 * i, j)
}

/// Area `i` of the block whose header is at `hdr`, as read.
pub open spec fn area_is(data: Seq<u8>, hdr: int, i: int, a: Area) -> bool {
    let ao = hdr + 0x20 + 0x30 * i;
    &&& a.words@ == table_record(data, hdr + 0x20, 0x30, 12, i)
    &&& a.part_counts@ == Seq::new(5, |j: int| area_part_count(data, ao, j) as i16)
    &&& a.links@.len() == 5
    &&& forall|j: int| 0 <= j < 5 ==> (#[trigger] a.links@[j])@ == area_links(data, hdr, ao, j)
}

/// Read the area block (see [`areas_ok`], [`area_is`]).
pub fn parse_areas(data: &[u8], ofs: i32) -> (r: Option<Areas>)
    ensures
        r is None <==> !areas_ok(data@, ofs as int),
        r matches Some(a) ==> {
            let hdr = ofs + 4;
            &&& a.count == sw(data@, hdr)
            &&& a.parts@ == Seq::new(5, |j: int| sw(data@, hdr + 4 + 4 * j) as i32)
            &&& a.areas@.len() == a.count
            &&& forall|i: int| 0 <= i < a.areas@.len() ==> area_is(data@, hdr, i, #[trigger] a.areas@[i])
        },
{
    if ofs < 0 || ofs as u64 + 0x1c > data.len() as u64 {
        return None;
    }
    let hdr = ofs as u64 + 4;
    let ac = match signed_word(data, hdr as i64) {
        Some(v) => v,
        None => {
            return None;
        },
    };
    let mut parts: Vec<i32> = Vec::new();
    let mut j: u64 = 0;
    while j < 5
        invariant
            j <= 5,
            hdr == ofs + 4,
            0 <= ofs,
            ofs + 0x1c <= data@.len(),
            parts@ == Seq::new(j as nat, |q: int| sw(data@, hdr + 4 + 4 * q) as i32),
        decreases 5 - j,
    {
        let p = match signed_word(data, (hdr + 4 + 4 * j) as i64) {
            Some(v) => v,
            None => {
                return None;
            },
        };
        parts.push(p);
        j += 1;
        assert(parts@ =~= Seq::new(j as nat, |q: int| sw(data@, hdr + 4 + 4 * q) as i32));
    }
    if ac < 0 {
        return None;
    }
    let n = ac as u64;
    let records = match read_table(data, hdr + 0x20, 0x30, 12, 12, n) {
        Some(r) => r,
        None => {
            return None;
        },
    };
    let mut areas: Vec<Area> = Vec::new();
    let mut i: u64 = 0;
    while i < n
        invariant
            i <= n == ac,
            0 <= ac,
            data@.len() <= usize::MAX,
            hdr == ofs + 4,
            0 <= ofs,
            ac == sw(data@, hdr as int),
            parts@ == Seq::new(5, |q: int| sw(data@, hdr + 4 + 4 * q) as i32),
            table_fits(data@.len() as int, hdr + 0x20, 0x30, 12, ac as int),
            rows_match(records@, table_records(data@, hdr + 0x20, 0x30, 12, ac as int)),
            areas@.len() == i,
            forall|q: int| 0 <= q < i ==> area_is(data@, hdr as int, q, #[trigger] areas@[q]),
            forall|q: int, k: int|
                0 <= q < i && 0 <= k < 5 ==> #[trigger] area_link_ok(data@, hdr as int, hdr + 0x20 + 0x30 * q, k),
        decreases n - i,
    {
        let ao = hdr + 0x20 + 0x30 * i;
        assert(ao + 0x30 <= data@.len()) by (nonlinear_arith)
            requires
                ao == hdr + 0x20 + 0x30 * i,
                i < n,
                hdr + 0x20 + (n - 1) * 0x30 + 4 * 12 <= data@.len(),
        ;
        let mut counts: Vec<i16> = Vec::new();
        let mut links: Vec<Vec<i32>> = Vec::new();
        let mut jj: u64 = 0;
        while jj < 5
            invariant
                jj <= 5,
                ao + 0x30 <= data@.len(),
                data@.len() <= usize::MAX,
                ao <= 0x1_0000_0000_0000,
                hdr <= 0x1_0000_0000,
                hdr == ofs + 4,
                0 <= ofs,
                i < n == ac,
                ac == sw(data@, hdr as int),
                ao == hdr + 0x20 + 0x30 * i,
                parts@ == Seq::new(5, |q: int| sw(data@, hdr + 4 + 4 * q) as i32),
                counts@ == Seq::new(jj as nat, |q: int| area_part_count(data@, ao as int, q) as i16),
                links@.len() == jj,
                forall|q: int| 0 <= q < jj ==> (#[trigger] links@[q])@ == area_links(data@, hdr as int, ao as int, q),
                forall|q: int| 0 <= q < jj ==> #[trigger] area_link_ok(data@, hdr as int, ao as int, q),
            decreases 5 - jj,
        {
            let pc = r_s16(data, (ao + 0x10 + 2 * jj) as usize);
            let rel_s = match signed_word(data, (ao + 0x1c + 4 * jj) as i64) {
                Some(v) => v,
                None => {
                    return None;
                },
            };
            proof {
                lemma_sw_range(data@, hdr + 4 + 4 * jj);
            }
            assert(parts@[jj as int] as int == sw(data@, hdr + 4 + 4 * jj));
            let lo: i64 = hdr as i64 + parts[jj as usize] as i64 + rel_s as i64;
            assert(lo == area_link_off(data@, hdr as int, ao as int, jj as int));
            assert(pc == area_part_count(data@, ao as int, jj as int));
            assert(lo == area_link_off(data@, hdr as int, ao as int, jj as int));
            let mut lk: Vec<i32> = Vec::new();
            if pc > 0 {
                let cnt = pc as u64;
                if lo < 0 || lo as u64 + 4 * cnt > data.len() as u64 {
                    assert(!area_link_ok(data@, hdr as int, ao as int, jj as int));
                    assert(!areas_ok(data@, ofs as int)) by {
                        assert(!area_link_ok(
                            data@,
                            ofs + 4,
                            ofs + 4 + 0x20 + 0x30 * (i as int),
                            jj as int,
                        ));
                    }
                    return None;
                }
                let mut k: u64 = 0;
                while k < cnt
                    invariant
                        k <= cnt == area_part_count(data@, ao as int, jj as int),
                        0 <= lo <= 0x10_0000_0000,
                        lo + 4 * cnt <= data@.len(),
                        lk@ == Seq::new(k as nat, |q: int| sw(data@, lo + 4 * q) as i32),
                    decreases cnt - k,
                {
                    let v = match signed_word(data, lo + 4 * k as i64) {
                        Some(v) => v,
                        None => {
                            return None;
                        },
                    };
                    lk.push(v);
                    k += 1;
                    assert(lk@ =~= Seq::new(k as nat, |q: int| sw(data@, lo + 4 * q) as i32));
                }
            }
            assert(lk@ =~= area_links(data@, hdr as int, ao as int, jj as int));
            assert(area_link_ok(data@, hdr as int, ao as int, jj as int));
            counts.push(pc);
            let ghost q0 = jj as int;
            links.push(lk);
            assert(links@[q0] == lk);
            jj += 1;
            assert(counts@ =~= Seq::new(jj as nat, |q: int| area_part_count(data@, ao as int, q) as i16));
        }
        let words = read_record(data, ao, 12);
        let a = Area { words, part_counts: counts, links };
        assert(a.words@ =~= table_record(data@, hdr + 0x20, 0x30, 12, i as int));
        assert(area_is(data@, hdr as int, i as int, a));
        let ghost q1 = i as int;
        areas.push(a);
        assert(areas@[q1] == a);
        i += 1;
    }
    Some(Areas { count: ac, parts, areas })
}

/// Pointer of the block whose header slot is at `slot`.
pub open spec fn gp(data: Seq<u8>, slot: int) -> i32 {
    sw(data, slot) as i32
}

/// The 39 block pointers, in the order of the block table (environment
/// sample points, level settings, the eight help languages, directional
/// lights, environment transitions, cameras, sound instances, moby classes
/// and instances, pvar table, data, moby links and relative pointers, moby
/// groups, shared data, tie classes, instances, ambient colours and groups,
/// shrub classes, instances and groups, paths, cuboids, spheres, cylinders,
/// pills, camera collision grid, point lights, grind paths, areas,
/// occlusion).
pub open spec fn gameplay_pointers(data: Seq<u8>) -> Seq<i32> {
    seq![
        gp(data, 0x8c),
        gp(data, 0x00),
        gp(data, 0x10),
        gp(data, 0x14),
        gp(data, 0x18),
        gp(data, 0x1c),
        gp(data, 0x20),
        gp(data, 0x24),
        gp(data, 0x28),
        gp(data, 0x2c),
        gp(data, 0x04),
        gp(data, 0x84),
        gp(data, 0x08),
        gp(data, 0x0c),
        gp(data, 0x48),
        gp(data, 0x4c),
        gp(data, 0x5c),
        gp(data, 0x60),
        gp(data, 0x58),
        gp(data, 0x64),
        gp(data, 0x50),
        gp(data, 0x54),
        gp(data, 0x30),
        gp(data, 0x34),
        gp(data, 0x94),
        gp(data, 0x38),
        gp(data, 0x3c),
        gp(data, 0x40),
        gp(data, 0x44),
        gp(data, 0x78),
        gp(data, 0x68),
        gp(data, 0x6c),
        gp(data, 0x70),
        gp(data, 0x74),
        gp(data, 0x88),
        gp(data, 0x80),
        gp(data, 0x7c),
        gp(data, 0x98),
        gp(data, 0x90),
    ]
}

/// Position of the pvar data block in the block table.
pub const PVAR_DATA_BLOCK: usize = 17;

/// Position of the camera collision grid block in the block table.
pub const CAM_COLL_GRID_BLOCK: usize = 34;

/// A table block as read: absent for a zero pointer.
pub open spec fn table_field(
    f: Option<Vec<Vec<u32>>>,
    data: Seq<u8>,
    p: int,
    hdr: int,
    first: int,
    stride: int,
    nwords: int,
    strict: int,
) -> bool {
    if p == 0 {
        f is None
    } else {
        f matches Some(v) && rows_match(
            v@,
            counted_table(data, p, hdr, first, stride, nwords, strict)->0,
        )
    }
}

/// A table block can be read (or is absent).
pub open spec fn table_ok(
    data: Seq<u8>,
    p: int,
    hdr: int,
    first: int,
    stride: int,
    nwords: int,
    strict: int,
) -> bool {
    p != 0 ==> counted_table(data, p, hdr, first, stride, nwords, strict) is Some
}

/// Read a table block; `Err` when it is refused.
fn table_section(
    data: &[u8],
    p: i32,
    hdr: u64,
    first: u64,
    stride: u64,
    nwords: u64,
    strict: u64,
) -> (r: Result<Option<Vec<Vec<u32>>>, ()>)
    requires
        1 <= hdr <= 2,
        first <= 0x100,
        strict <= nwords,
        4 * nwords <= stride <= 0x100,
    ensures
        r is Err <==> !table_ok(
            data@,
            p as int,
            hdr as int,
            first as int,
            stride as int,
            nwords as int,
            strict as int,
        ),
        r matches Ok(f) ==> table_field(
            f,
            data@,
            p as int,
            hdr as int,
            first as int,
            stride as int,
            nwords as int,
            strict as int,
        ),
{
    if p == 0 {
        return Ok(None);
    }
    match read_counted_table(data, p as i64, hdr, first, stride, nwords, strict) {
        Some(v) => Ok(Some(v)),
        None => Err(()),
    }
}

/// A group block as read: absent for a zero pointer.
pub open spec fn groups_field(f: Option<Vec<Vec<u16>>>, data: Seq<u8>, p: int) -> bool {
    if p == 0 {
        f is None
    } else {
        f matches Some(v) && groups_match(v@, groups(data, p)->0)
    }
}

/// Read a group block; `Err` when it is refused.
fn groups_section(data: &[u8], p: i32) -> (r: Result<Option<Vec<Vec<u16>>>, ()>)
    ensures
        r is Err <==> (p != 0 && groups(data@, p as int) is None),
        r matches Ok(f) ==> groups_field(f, data@, p as int),
{
    if p == 0 {
        return Ok(None);
    }
    match parse_groups(data, p) {
        Some(v) => Ok(Some(v)),
        None => Err(()),
    }
}

/// A help block as read: absent for a zero pointer.
pub open spec fn help_field(f: Option<HelpMessages>, data: Seq<u8>, p: int) -> bool {
    if p == 0 {
        f is None
    } else {
        f matches Some(h) && h.count == sw(data, p) && h.entries@.len() == help_count(sw(data, p))
            && forall|i: int|
            0 <= i < h.entries@.len() ==> help_entry_is(data, p, i, #[trigger] h.entries@[i])
    }
}

/// The help blocks of the eight languages (slots 0x10 to 0x2c), as read.
pub open spec fn help_fields(f: Seq<Option<HelpMessages>>, data: Seq<u8>) -> bool {
    f.len() == 8 && forall|k: int| 0 <= k < 8 ==> help_field(#[trigger] f[k], data, gp(data, 0x10 + 4 * k) as int)
}

/// The help blocks can be read.
pub open spec fn helps_ok(data: Seq<u8>) -> bool {
    forall|k: int| 0 <= k < 8 ==> (#[trigger] gp(data, 0x10 + 4 * k) != 0 ==> help_ok(data, gp(data, 0x10 + 4 * k) as int))
}

/// Read the help blocks of the eight languages; `None` when one is refused.
fn help_sections(data: &[u8]) -> (r: Option<Vec<Option<HelpMessages>>>)
    requires
        data@.len() >= 0x9c,
    ensures
        r is None <==> !helps_ok(data@),
        r matches Some(f) ==> help_fields(f@, data@),
{
    let mut out: Vec<Option<HelpMessages>> = Vec::new();
    let mut k: usize = 0;
    while k < 8
        invariant
            k <= 8,
            data@.len() >= 0x9c,
            out@.len() == k,
            forall|q: int| 0 <= q < k ==> help_field(#[trigger] out@[q], data@, gp(data@, 0x10 + 4 * q) as int),
            forall|q: int| 0 <= q < k ==> (#[trigger] gp(data@, 0x10 + 4 * q) != 0 ==> help_ok(data@, gp(data@, 0x10 + 4 * q) as int)),
        decreases 8 - k,
    {
        let p = r_s32(data, 0x10 + 4 * k);
        assert(p == gp(data@, 0x10 + 4 * k));
        let f = if p == 0 {
            None
        } else {
            match parse_help_messages(data, p) {
                Some(h) => Some(h),
                None => {
                    assert(!helps_ok(data@)) by {
                        assert(gp(data@, 0x10 + 4 * (k as int)) != 0);
                    }
                    return None;
                },
            }
        };
        let ghost q0 = k as int;
        out.push(f);
        assert(out@[q0] == f);
        k += 1;
    }
    Some(out)
}

/// The four collision shape blocks (cuboids, spheres, cylinders, pills at
/// slots 0x68 to 0x74): matrix, inverse matrix, rotation (32 words, 0x80
/// bytes apart from 0x10).
pub open spec fn shape_fields(f: Seq<Option<Vec<Vec<u32>>>>, data: Seq<u8>) -> bool {
    f.len() == 4 && forall|k: int|
        0 <= k < 4 ==> table_field(#[trigger] f[k], data, gp(data, 0x68 + 4 * k) as int, 1, 0x10, 0x80, 32, 0)
}

/// The shape blocks can be read.
pub open spec fn shapes_ok(data: Seq<u8>) -> bool {
    forall|k: int| 0 <= k < 4 ==> table_ok(data, #[trigger] gp(data, 0x68 + 4 * k) as int, 1, 0x10, 0x80, 32, 0)
}

/// Read the four shape blocks; `None` when one is refused.
fn shape_sections(data: &[u8]) -> (r: Option<Vec<Option<Vec<Vec<u32>>>>>)
    requires
        data@.len() >= 0x9c,
    ensures
        r is None <==> !shapes_ok(data@),
        r matches Some(f) ==> shape_fields(f@, data@),
{
    let mut out: Vec<Option<Vec<Vec<u32>>>> = Vec::new();
    let mut k: usize = 0;
    while k < 4
        invariant
            k <= 4,
            data@.len() >= 0x9c,
            out@.len() == k,
            forall|q: int| 0 <= q < k ==> table_field(#[trigger] out@[q], data@, gp(data@, 0x68 + 4 * q) as int, 1, 0x10, 0x80, 32, 0),
            forall|q: int| 0 <= q < k ==> table_ok(data@, #[trigger] gp(data@, 0x68 + 4 * q) as int, 1, 0x10, 0x80, 32, 0),
        decreases 4 - k,
    {
        let p = r_s32(data, 0x68 + 4 * k);
        assert(p == gp(data@, 0x68 + 4 * k));
        let f = match table_section(data, p, 1, 0x10, 0x80, 32, 0) {
            Ok(f) => f,
            Err(_) => {
                assert(!shapes_ok(data@)) by {
                    assert(!table_ok(data@, gp(data@, 0x68 + 4 * (k as int)) as int, 1, 0x10, 0x80, 32, 0));
                }
                return None;
            },
        };
        let ghost q0 = k as int;
        out.push(f);
        assert(out@[q0] == f);
        k += 1;
    }
    Some(out)
}

/// The block pointers (see [`gameplay_pointers`]).
fn read_pointers(data: &[u8]) -> (r: Vec<i32>)
    requires
        data@.len() >= 0x9c,
    ensures
        r@ == gameplay_pointers(data@),
{
    let mut pointers: Vec<i32> = Vec::new();
    pointers.push(r_s32(data, 0x8c));
    pointers.push(r_s32(data, 0x00));
    pointers.push(r_s32(data, 0x10));
    pointers.push(r_s32(data, 0x14));
    pointers.push(r_s32(data, 0x18));
    pointers.push(r_s32(data, 0x1c));
    pointers.push(r_s32(data, 0x20));
    pointers.push(r_s32(data, 0x24));
    pointers.push(r_s32(data, 0x28));
    pointers.push(r_s32(data, 0x2c));
    pointers.push(r_s32(data, 0x04));
    pointers.push(r_s32(data, 0x84));
    pointers.push(r_s32(data, 0x08));
    pointers.push(r_s32(data, 0x0c));
    pointers.push(r_s32(data, 0x48));
    pointers.push(r_s32(data, 0x4c));
    pointers.push(r_s32(data, 0x5c));
    pointers.push(r_s32(data, 0x60));
    pointers.push(r_s32(data, 0x58));
    pointers.push(r_s32(data, 0x64));
    pointers.push(r_s32(data, 0x50));
    pointers.push(r_s32(data, 0x54));
    pointers.push(r_s32(data, 0x30));
    pointers.push(r_s32(data, 0x34));
    pointers.push(r_s32(data, 0x94));
    pointers.push(r_s32(data, 0x38));
    pointers.push(r_s32(data, 0x3c));
    pointers.push(r_s32(data, 0x40));
    pointers.push(r_s32(data, 0x44));
    pointers.push(r_s32(data, 0x78));
    pointers.push(r_s32(data, 0x68));
    pointers.push(r_s32(data, 0x6c));
    pointers.push(r_s32(data, 0x70));
    pointers.push(r_s32(data, 0x74));
    pointers.push(r_s32(data, 0x88));
    pointers.push(r_s32(data, 0x80));
    pointers.push(r_s32(data, 0x7c));
    pointers.push(r_s32(data, 0x98));
    pointers.push(r_s32(data, 0x90));
    assert(pointers@ =~= gameplay_pointers(data@));
    pointers
}

/// A level's gameplay file as read: its size, its block pointers, and each
/// block (absent where its pointer is 0). Tables hold their records as words
/// (see [`table_records`]).
pub struct Gameplay {
    pub file_size: usize,
    pub pointers: Vec<i32>,
    pub level_settings: Option<LevelSettings>,
    /// Directional lights: colour and direction (8 words, 0x40 apart).
    pub dir_lights: Option<Vec<Vec<u32>>>,
    /// Cameras: type, position, rotation, pvar index (8 words).
    pub cameras: Option<Vec<Vec<u32>>>,
    /// Sound instances: classes, update function, pvar index, range, two
    /// matrices, rotation (40 words).
    pub sound_instances: Option<Vec<Vec<u32>>>,
    /// Help messages of the eight languages.
    pub help: Vec<Option<HelpMessages>>,
    /// Moby class ids (1 word each, from 4).
    pub moby_classes: Option<Vec<Vec<u32>>>,
    /// Static moby instances (34 words, 0x88 apart).
    pub moby_instances: Option<Vec<Vec<u32>>>,
    /// Tie instances (24 words, 0x60 apart).
    pub tie_instances: Option<Vec<Vec<u32>>>,
    pub tie_ambient_rgbas: Option<Vec<Vec<u8>>>,
    pub tie_groups: Option<Vec<Vec<u16>>>,
    /// Shrub class ids (1 word each, from 4).
    pub shrub_classes: Option<Vec<Vec<u32>>>,
    /// Shrub instances (28 words, 0x70 apart).
    pub shrub_instances: Option<Vec<Vec<u32>>>,
    pub shrub_groups: Option<Vec<Vec<u16>>>,
    pub moby_groups: Option<Vec<Vec<u16>>>,
    pub shared_data: Option<SharedData>,
    /// Pvar table: offset and size (2 words, 8 apart).
    pub pvar_table: Option<Vec<Vec<u32>>>,
    pub pvar_data_size: Option<u64>,
    pub pvar_moby_links: Option<Vec<(i32, u32)>>,
    pub pvar_relative_pointers: Option<Vec<(i32, u32)>>,
    /// Cuboids, spheres, cylinders and pills.
    pub shapes: Vec<Option<Vec<Vec<u32>>>>,
    pub paths: Option<Vec<Vec<Vec<u32>>>>,
    pub grind_paths: Option<GrindPaths>,
    pub point_lights: Option<Vec<Vec<u16>>>,
    /// Environment transitions (12 words, 0x30 apart).
    pub env_transitions: Option<Vec<Vec<u32>>>,
    pub cam_coll_grid_size: Option<u64>,
    /// Environment sample points (8 words, 0x20 apart).
    pub env_sample_points: Option<Vec<Vec<u32>>>,
    /// Occlusion mapping counts (tfrag, tie, moby).
    pub occlusion: Option<Vec<u32>>,
    pub areas: Option<Areas>,
}

/// Every block of the gameplay file that is present can be read.
pub open spec fn gameplay_ok(data: Seq<u8>) -> bool {
    let p = |slot: int| gp(data, slot) as int;
    &&& data.len() >= 0x9c
    &&& (p(0x00) != 0 ==> level_settings(data, p(0x00)) is Some)
    &&& table_ok(data, p(0x04), 1, 0x10, 0x40, 8, 0)
    &&& table_ok(data, p(0x08), 1, 0x10, 0x20, 8, 8)
    &&& table_ok(data, p(0x0c), 1, 0x10, 0xA0, 40, 4)
    &&& helps_ok(data)
    &&& table_ok(data, p(0x48), 1, 4, 4, 1, 1)
    &&& table_ok(data, p(0x4c), 2, 0x10, 0x88, 34, 34)
    &&& table_ok(data, p(0x34), 1, 0x10, 0x60, 24, 24)
    &&& (p(0x94) != 0 ==> rgbas_from(data, p(0x94)) is Some)
    &&& (p(0x38) != 0 ==> groups(data, p(0x38)) is Some)
    &&& table_ok(data, p(0x3c), 1, 4, 4, 1, 1)
    &&& table_ok(data, p(0x40), 1, 0x10, 0x70, 28, 28)
    &&& (p(0x44) != 0 ==> groups(data, p(0x44)) is Some)
    &&& (p(0x50) != 0 ==> groups(data, p(0x50)) is Some)
    &&& (p(0x54) != 0 ==> shared_data(data, p(0x54)) is Some)
    &&& table_ok(data, p(0x5c), 1, 0x10, 8, 2, 2)
    &&& (p(0x58) != 0 ==> fixups_from(data, p(0x58)) is Some)
    &&& (p(0x64) != 0 ==> fixups_from(data, p(0x64)) is Some)
    &&& shapes_ok(data)
    &&& (p(0x78) != 0 ==> paths_ok(data, p(0x78)))
    &&& (p(0x7c) != 0 ==> grind_paths_ok(data, p(0x7c)))
    &&& (p(0x80) != 0 ==> point_lights(data, p(0x80)) is Some)
    &&& table_ok(data, p(0x84), 1, 0x10, 0x30, 12, 0)
    &&& table_ok(data, p(0x8c), 1, 0x10, 0x20, 8, 8)
    &&& (p(0x90) != 0 ==> fixed_words(data, p(0x90), 3) is Some)
    &&& (p(0x98) != 0 ==> areas_ok(data, p(0x98)))
}

/// `g` is the gameplay file `data` as read.
pub open spec fn gameplay_read(data: Seq<u8>, g: Gameplay) -> bool {
    let p = |slot: int| gp(data, slot) as int;
    let ls_spec = level_settings(data, p(0x00))->0;
    let sd_spec = shared_data(data, p(0x54))->0;
    &&& g.file_size == data.len()
    &&& g.pointers@ == gameplay_pointers(data)
    &&& (if p(0x00) == 0 {
        g.level_settings is None
    } else {
        g.level_settings matches Some(ls) && ls.words@ == ls_spec.0 && rows_match(
            ls.chunk_planes@,
            ls_spec.1,
        )
    })
    &&& table_field(g.dir_lights, data, p(0x04), 1, 0x10, 0x40, 8, 0)
    &&& table_field(g.cameras, data, p(0x08), 1, 0x10, 0x20, 8, 8)
    &&& table_field(g.sound_instances, data, p(0x0c), 1, 0x10, 0xA0, 40, 4)
    &&& help_fields(g.help@, data)
    &&& table_field(g.moby_classes, data, p(0x48), 1, 4, 4, 1, 1)
    &&& table_field(g.moby_instances, data, p(0x4c), 2, 0x10, 0x88, 34, 34)
    &&& table_field(g.tie_instances, data, p(0x34), 1, 0x10, 0x60, 24, 24)
    &&& (if p(0x94) == 0 {
        g.tie_ambient_rgbas is None
    } else {
        g.tie_ambient_rgbas matches Some(v) && bytes_match(v@, rgbas_from(data, p(0x94))->0)
    })
    &&& groups_field(g.tie_groups, data, p(0x38))
    &&& table_field(g.shrub_classes, data, p(0x3c), 1, 4, 4, 1, 1)
    &&& table_field(g.shrub_instances, data, p(0x40), 1, 0x10, 0x70, 28, 28)
    &&& groups_field(g.shrub_groups, data, p(0x44))
    &&& groups_field(g.moby_groups, data, p(0x50))
    &&& (if p(0x54) == 0 {
        g.shared_data is None
    } else {
        g.shared_data matches Some(sd) && sd.data@ == sd_spec.0 && rows_match(
            sd.pointers@,
            sd_spec.1,
        )
    })
    &&& table_field(g.pvar_table, data, p(0x5c), 1, 0x10, 8, 2, 2)
    &&& g.pvar_data_size == (if p(0x60) == 0 {
        None
    } else {
        Some(block_extent(gameplay_pointers(data), 17, data.len() as int) as u64)
    })
    &&& (if p(0x58) == 0 {
        g.pvar_moby_links is None
    } else {
        g.pvar_moby_links matches Some(v) && v@ == fixups_from(data, p(0x58))->0
    })
    &&& (if p(0x64) == 0 {
        g.pvar_relative_pointers is None
    } else {
        g.pvar_relative_pointers matches Some(v) && v@ == fixups_from(data, p(0x64))->0
    })
    &&& shape_fields(g.shapes@, data)
    &&& (if p(0x78) == 0 {
        g.paths is None
    } else {
        g.paths matches Some(v) && v@.len() == sw(data, p(0x78)) && splines_match(
            v@,
            data,
            p(0x78) + sw(data, p(0x78) + 4),
            p(0x78) + 0x10,
        )
    })
    &&& (if p(0x7c) == 0 {
        g.grind_paths is None
    } else {
        g.grind_paths matches Some(gr) && {
            let o = p(0x7c);
            let sc = sw(data, o);
            &&& rows_match(gr.records@, table_records(data, o + 0x10, 0x20, 7, sc))
            &&& gr.splines@.len() == sc
            &&& splines_match(gr.splines@, data, o + sw(data, o + 4), o + 0x10 + 0x20 * sc)
        }
    })
    &&& (if p(0x80) == 0 {
        g.point_lights is None
    } else {
        g.point_lights matches Some(v) && groups_match(v@, point_lights(data, p(0x80))->0)
    })
    &&& table_field(g.env_transitions, data, p(0x84), 1, 0x10, 0x30, 12, 0)
    &&& g.cam_coll_grid_size == (if p(0x88) == 0 {
        None
    } else {
        Some(block_extent(gameplay_pointers(data), 34, data.len() as int) as u64)
    })
    &&& table_field(g.env_sample_points, data, p(0x8c), 1, 0x10, 0x20, 8, 8)
    &&& (if p(0x90) == 0 {
        g.occlusion is None
    } else {
        g.occlusion matches Some(v) && v@ == fixed_words(data, p(0x90), 3)->0
    })
    &&& (if p(0x98) == 0 {
        g.areas is None
    } else {
        g.areas matches Some(a) && {
            let hdr = p(0x98) + 4;
            &&& a.count == sw(data, hdr)
            &&& a.parts@ == Seq::new(5, |j: int| sw(data, hdr + 4 + 4 * j) as i32)
            &&& a.areas@.len() == a.count
            &&& forall|i: int| 0 <= i < a.areas@.len() ==> area_is(data, hdr, i, #[trigger] a.areas@[i])
        }
    })
}

/// Read a level's gameplay file: `None` when it is shorter than the block
/// table or a present block is refused (see [`gameplay_ok`]); else every
/// block as [`gameplay_read`] describes it.
#[verifier::rlimit(100)]
pub fn parse_gameplay(data: &[u8]) -> (r: Option<Gameplay>)
    ensures
        r is None <==> !gameplay_ok(data@),
        r matches Some(g) ==> gameplay_read(data@, g),
{
    if data.len() < 0x9c {
        return None;
    }
    let pointers = read_pointers(data);
    let p00 = r_s32(data, 0x00);
    let level_settings = if p00 == 0 {
        None
    } else {
        match parse_level_settings(data, p00) {
            Some(x) => Some(x),
            None => {
                return None;
            },
        }
    };
    let dir_lights = match table_section(data, r_s32(data, 0x04), 1, 0x10, 0x40, 8, 0) {
        Ok(x) => x,
        Err(_) => {
            return None;
        },
    };
    let cameras = match table_section(data, r_s32(data, 0x08), 1, 0x10, 0x20, 8, 8) {
        Ok(x) => x,
        Err(_) => {
            return None;
        },
    };
    let sound_instances = match table_section(data, r_s32(data, 0x0c), 1, 0x10, 0xA0, 40, 4) {
        Ok(x) => x,
        Err(_) => {
            return None;
        },
    };
    let help = match help_sections(data) {
        Some(h) => h,
        None => {
            return None;
        },
    };
    let moby_classes = match table_section(data, r_s32(data, 0x48), 1, 4, 4, 1, 1) {
        Ok(x) => x,
        Err(_) => {
            return None;
        },
    };
    let moby_instances = match table_section(data, r_s32(data, 0x4c), 2, 0x10, 0x88, 34, 34) {
        Ok(x) => x,
        Err(_) => {
            return None;
        },
    };
    let tie_instances = match table_section(data, r_s32(data, 0x34), 1, 0x10, 0x60, 24, 24) {
        Ok(x) => x,
        Err(_) => {
            return None;
        },
    };
    let p94 = r_s32(data, 0x94);
    let tie_ambient_rgbas = if p94 == 0 {
        None
    } else {
        match parse_tie_ambient_rgbas(data, p94) {
            Some(x) => Some(x),
            None => {
                return None;
            },
        }
    };
    let tie_groups = match groups_section(data, r_s32(data, 0x38)) {
        Ok(x) => x,
        Err(_) => {
            return None;
        },
    };
    let shrub_classes = match table_section(data, r_s32(data, 0x3c), 1, 4, 4, 1, 1) {
        Ok(x) => x,
        Err(_) => {
            return None;
        },
    };
    let shrub_instances = match table_section(data, r_s32(data, 0x40), 1, 0x10, 0x70, 28, 28) {
        Ok(x) => x,
        Err(_) => {
            return None;
        },
    };
    let shrub_groups = match groups_section(data, r_s32(data, 0x44)) {
        Ok(x) => x,
        Err(_) => {
            return None;
        },
    };
    let moby_groups = match groups_section(data, r_s32(data, 0x50)) {
        Ok(x) => x,
        Err(_) => {
            return None;
        },
    };
    let p54 = r_s32(data, 0x54);
    let shared_data = if p54 == 0 {
        None
    } else {
        match parse_shared_data(data, p54) {
            Some(x) => Some(x),
            None => {
                return None;
            },
        }
    };
    let pvar_table = match table_section(data, r_s32(data, 0x5c), 1, 0x10, 8, 2, 2) {
        Ok(x) => x,
        Err(_) => {
            return None;
        },
    };
    let pvar_data_size = if r_s32(data, 0x60) == 0 {
        None
    } else {
        Some(block_size(pointers.as_slice(), PVAR_DATA_BLOCK, data.len() as u64))
    };
    let p58 = r_s32(data, 0x58);
    let pvar_moby_links = if p58 == 0 {
        None
    } else {
        match parse_fixups(data, p58) {
            Some(x) => Some(x),
            None => {
                return None;
            },
        }
    };
    let p64 = r_s32(data, 0x64);
    let pvar_relative_pointers = if p64 == 0 {
        None
    } else {
        match parse_fixups(data, p64) {
            Some(x) => Some(x),
            None => {
                return None;
            },
        }
    };
    let shapes = match shape_sections(data) {
        Some(x) => x,
        None => {
            return None;
        },
    };
    let p78 = r_s32(data, 0x78);
    let paths = if p78 == 0 {
        None
    } else {
        match parse_paths(data, p78) {
            Some(x) => Some(x),
            None => {
                return None;
            },
        }
    };
    let p7c = r_s32(data, 0x7c);
    let grind_paths = if p7c == 0 {
        None
    } else {
        match parse_grind_paths(data, p7c) {
            Some(x) => Some(x),
            None => {
                return None;
            },
        }
    };
    let p80 = r_s32(data, 0x80);
    let point_lights = if p80 == 0 {
        None
    } else {
        match parse_point_lights(data, p80) {
            Some(x) => Some(x),
            None => {
                return None;
            },
        }
    };
    let env_transitions = match table_section(data, r_s32(data, 0x84), 1, 0x10, 0x30, 12, 0) {
        Ok(x) => x,
        Err(_) => {
            return None;
        },
    };
    let cam_coll_grid_size = if r_s32(data, 0x88) == 0 {
        None
    } else {
        Some(block_size(pointers.as_slice(), CAM_COLL_GRID_BLOCK, data.len() as u64))
    };
    let env_sample_points = match table_section(data, r_s32(data, 0x8c), 1, 0x10, 0x20, 8, 8) {
        Ok(x) => x,
        Err(_) => {
            return None;
        },
    };
    let p90 = r_s32(data, 0x90);
    let occlusion = if p90 == 0 {
        None
    } else {
        match read_fixed_words(data, p90, 3) {
            Some(x) => Some(x),
            None => {
                return None;
            },
        }
    };
    let p98 = r_s32(data, 0x98);
    let areas = if p98 == 0 {
        None
    } else {
        match parse_areas(data, p98) {
            Some(x) => Some(x),
            None => {
                return None;
            },
        }
    };
    let g = Gameplay {
        file_size: data.len(),
        pointers,
        level_settings,
        dir_lights,
        cameras,
        sound_instances,
        help,
        moby_classes,
        moby_instances,
        tie_instances,
        tie_ambient_rgbas,
        tie_groups,
        shrub_classes,
        shrub_instances,
        shrub_groups,
        moby_groups,
        shared_data,
        pvar_table,
        pvar_data_size,
        pvar_moby_links,
        pvar_relative_pointers,
        shapes,
        paths,
        grind_paths,
        point_lights,
        env_transitions,
        cam_coll_grid_size,
        env_sample_points,
        occlusion,
        areas,
    };
    Some(g)
}

} // verus!
