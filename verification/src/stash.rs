//! The moby GS stash list of a level's core data: 64-byte entries whose
//! layout varies between builds. The layout is found by sampling: which
//! word holds the 0xFFFF00FF sentinel most often, and which word, mask and
//! base turn the most entries into offsets inside the core data.

use vstd::prelude::*;
use crate::common::{le_u32, push_range, r_u32};

verus! {

/// The sentinel word.
pub const SENTINEL: u32 = 0xFFFF_00FF;

/// Entries sampled: at most 50.
pub open spec fn sample_count(count: int) -> int {
    if count < 50 {
        count
    } else {
        50
    }
}

/// How many of `n` records `stride` bytes apart, each reading `size` bytes
/// from `start`, lie in `len` bytes.
pub open spec fn stride_fit(len: int, start: int, n: int, stride: int, size: int) -> int {
    let fit = if start + size <= len {
        (len - start - size) / stride + 1
    } else {
        0
    };
    if n < fit {
        n
    } else {
        fit
    }
}

/// The first word position from `p` on (below 16) of the entry at `off`
/// that holds the sentinel.
pub open spec fn first_sentinel(d: Seq<u8>, off: int, p: int) -> Option<int>
    decreases 16 - p,
{
    if p < 0 || p >= 16 {
        None
    } else if le_u32(d, off + 4 * p) == SENTINEL {
        Some(p)
    } else {
        first_sentinel(d, off, p + 1)
    }
}

/// Number of the first `n` entries whose first sentinel is at word `p`.
pub open spec fn sentinel_hits(d: Seq<u8>, list: int, n: nat, p: int) -> int
    decreases n,
{
    if n == 0 {
        0
    } else {
        sentinel_hits(d, list, (n - 1) as nat, p) + if first_sentinel(d, list + 64 * (n - 1), 0) == Some(
            p,
        ) {
            1int
        } else {
            0
        }
    }
}

/// The most frequent sentinel position among word positions `0..m` (the
/// last of equally frequent ones), or -1 when none is seen.
pub open spec fn sentinel_best(d: Seq<u8>, list: int, n: nat, m: int) -> int
    decreases m,
{
    if m <= 0 {
        -1
    } else {
        let b = sentinel_best(d, list, n, m - 1);
        let h = sentinel_hits(d, list, n, m - 1);
        if h > 0 && (b == -1 || h >= sentinel_hits(d, list, n, b)) {
            m - 1
        } else {
            b
        }
    }
}

/// Add `c` to `s` when it is below 16 and not in `s` yet.
pub open spec fn add_candidate(s: Seq<int>, c: int) -> Seq<int> {
    if c < 16 && !s.contains(c) {
        s.push(c)
    } else {
        s
    }
}

/// The word positions tried for the entry address: after the sentinel and
/// word 1 first, then (unless already there) word 1, the words around the
/// sentinel, words 4 and 5; without a sentinel, words 1, 4, 5, 2, 3.
pub open spec fn ee_candidates(sp: int) -> Seq<int> {
    if sp >= 0 {
        let s0 = seq![sp + 1, 1int];
        let s1 = add_candidate(add_candidate(s0, 1), sp + 1);
        let s2 = if sp >= 1 {
            add_candidate(s1, sp - 1)
        } else {
            s1
        };
        add_candidate(add_candidate(s2, 4), 5)
    } else {
        add_candidate(add_candidate(add_candidate(add_candidate(add_candidate(seq![1int], 1), 4), 5), 2), 3)
    }
}

/// `x - base` modulo 2^32.
pub open spec fn wrap_sub(x: int, base: int) -> int {
    if x >= base {
        x - base
    } else {
        x - base + 0x1_0000_0000
    }
}

/// The entry address of `val` under a mask of the low `m` values and a base.
pub open spec fn stash_offset(val: int, m: int, base: int) -> int {
    wrap_sub(val % m, base)
}

/// Number of the first `n` entries whose word `ee` is non-zero and gives an
/// offset inside the core data.
pub open spec fn valid_entries(d: Seq<u8>, list: int, n: nat, ee: int, m: int, base: int) -> int
    decreases n,
{
    if n == 0 {
        0
    } else {
        let val = le_u32(d, list + 64 * (n - 1) + 4 * ee);
        valid_entries(d, list, (n - 1) as nat, ee, m, base) + if val != 0 && stash_offset(val, m, base)
            < d.len() {
            1int
        } else {
            0
        }
    }
}

/// The layout of the stash list's entries.
#[derive(Debug, Clone, Copy, PartialEq, Eq, Structural)]
pub struct StashLayout {
    /// Word position of the sentinel, or -1.
    pub sentinel_pos: i32,
    /// Word position of the entry address.
    pub ee_pos: u64,
    /// The address mask (0x01FFFFFF or 0x00FFFFFF).
    pub mask: u32,
    /// The address base (0x00100000 or 0).
    pub base: u32,
    /// Entries whose address fell inside the core data.
    pub valid: u64,
    /// Entries with the sentinel at its position.
    pub sentinel_count: u64,
    /// Entries sampled.
    pub total_sampled: u64,
}

/// The modulus that a mask keeps: 2^25 or 2^24.
pub open spec fn mask_mod(mask: u32) -> int {
    if mask == 0x01FF_FFFFu32 {
        0x200_0000
    } else {
        0x100_0000
    }
}

/// Configuration `c` of the search: candidate `c / 4`, mask `(c / 2) % 2`,
/// base `c % 2`.
pub open spec fn config_mask(c: int) -> u32 {
    if (c / 2) % 2 == 0 {
        0x01FF_FFFFu32
    } else {
        0x00FF_FFFFu32
    }
}

pub open spec fn config_base(c: int) -> u32 {
    if c % 2 == 0 {
        0x0010_0000u32
    } else {
        0u32
    }
}

/// Score of a configuration: its valid entries, and 10 more when its word
/// follows the sentinel.
pub open spec fn config_score(d: Seq<u8>, list: int, ms: int, sp: int, ee: int, mask: u32, base: u32) -> int {
    let n = stride_fit(d.len() as int, list + 4 * ee, ms, 64, 4);
    valid_entries(d, list, n as nat, ee, mask_mod(mask), base as int) + if sp >= 0 && ee == sp + 1 {
        10int
    } else {
        0
    }
}

/// The best layout after the first `k` configurations (the first of equal
/// scores wins; the default when none scores above 0), and its score.
pub open spec fn best_layout(d: Seq<u8>, list: int, ms: int, sp: int, sc: int, k: nat) -> (int, StashLayout)
    decreases k,
{
    if k == 0 {
        (
            0,
            StashLayout {
                sentinel_pos: sp as i32,
                ee_pos: 1,
                mask: 0x01FF_FFFF,
                base: 0x0010_0000,
                valid: 0,
                sentinel_count: sc as u64,
                total_sampled: ms as u64,
            },
        )
    } else {
        let prev = best_layout(d, list, ms, sp, sc, (k - 1) as nat);
        let c = k - 1;
        let ee = ee_candidates(sp)[c / 4];
        let mask = config_mask(c);
        let base = config_base(c);
        let score = config_score(d, list, ms, sp, ee, mask, base);
        if score > prev.0 {
            let n = stride_fit(d.len() as int, list + 4 * ee, ms, 64, 4);
            (
                score,
                StashLayout {
                    sentinel_pos: sp as i32,
                    ee_pos: ee as u64,
                    mask,
                    base,
                    valid: valid_entries(d, list, n as nat, ee, mask_mod(mask), base as int) as u64,
                    sentinel_count: sc as u64,
                    total_sampled: ms as u64,
                },
            )
        } else {
            prev
        }
    }
}

/// The layout of the stash list at `list` with `count` entries: the first
/// (at most 50) entries that fit are sampled for the sentinel, and every
/// candidate word, mask and base is scored over the sampled entries.
pub open spec fn stash_layout(d: Seq<u8>, list: int, count: int) -> StashLayout {
    let ms = sample_count(count);
    let n = stride_fit(d.len() as int, list, ms, 64, 64);
    let sp = sentinel_best(d, list, n as nat, 16);
    let sc = if sp >= 0 {
        sentinel_hits(d, list, n as nat, sp)
    } else {
        0
    };
    best_layout(d, list, ms, sp, sc, (4 * ee_candidates(sp).len()) as nat).1
}

pub open spec fn ints(v: Seq<u64>) -> Seq<int> {
    v.map_values(|x: u64| x as int)
}

fn push_candidate(v: &mut Vec<u64>, c: u64)
    ensures
        ints(final(v)@) == add_candidate(ints(old(v)@), c as int),
{
    let ghost s = ints(v@);
    if c >= 16 {
        return;
    }
    let mut i: usize = 0;
    while i < v.len()
        invariant
            s == ints(v@),
            i <= v@.len(),
            forall|j: int| 0 <= j < i ==> v@[j] != c,
        decreases v@.len() - i,
    {
        if v[i] == c {
            assert(s[i as int] == c as int);
            assert(s.contains(c as int));
            return;
        }
        i += 1;
    }
    assert(!s.contains(c as int)) by {
        if s.contains(c as int) {
            let j = choose|j: int| 0 <= j < s.len() && s[j] == c as int;
            assert(v@[j] == c);
        }
    }
    v.push(c);
    assert(ints(v@) =~= s.push(c as int));
}

fn fit_u64(len: u64, start: u128, n: u64, stride: u64, size: u64) -> (r: u64)
    requires
        stride > 0,
        start < 0x1_0000_0000_0000_0000_0000,
    ensures
        r == stride_fit(len as int, start as int, n as int, stride as int, size as int),
{
    let fit: u128 = if start + size as u128 <= len as u128 {
        (len as u128 - start - size as u128) / stride as u128 + 1
    } else {
        0
    };
    if (n as u128) < fit {
        n
    } else {
        fit as u64
    }
}

fn first_sentinel_at(d: &[u8], off: usize) -> (r: Option<u64>)
    requires
        off + 64 <= d@.len(),
    ensures
        match r {
            Some(q) => q < 16 && first_sentinel(d@, off as int, 0) == Some(q as int),
            None => first_sentinel(d@, off as int, 0) is None,
        },
{
    proof {
        lemma_first_sentinel_range(d@, off as int, 0);
    }
    let dlen = d.len();
    let mut p: usize = 0;
    while p < 16
        invariant
            dlen == d@.len(),
            off + 64 <= d@.len(),
            p <= 16,
            first_sentinel(d@, off as int, 0) == first_sentinel(d@, off as int, p as int),
        decreases 16 - p,
    {
        if r_u32(d, off + 4 * p) == SENTINEL {
            return Some(p as u64);
        }
        p += 1;
    }
    None
}

proof fn lemma_first_sentinel_range(d: Seq<u8>, off: int, p: int)
    ensures
        first_sentinel(d, off, p) matches Some(q) ==> p <= q < 16,
    decreases 16 - p,
{
    if 0 <= p < 16 && le_u32(d, off + 4 * p) != SENTINEL {
        lemma_first_sentinel_range(d, off, p + 1);
    }
}

fn count_valid(d: &[u8], list: u64, n: u64, ee: u64, mask: u32, base: u32) -> (r: u64)
    requires
        ee <= 16,
        n == stride_fit(d@.len() as int, list + 4 * ee, n as int, 64, 4),
        mask == 0x01FF_FFFFu32 || mask == 0x00FF_FFFFu32,
    ensures
        r == valid_entries(d@, list as int, n as nat, ee as int, mask_mod(mask), base as int),
        r <= n,
{
    let dl: usize = d.len();
    let dlen = dl as u128;
    let m: u32 = if mask == 0x01FF_FFFF {
        0x200_0000
    } else {
        0x100_0000
    };
    let mut r: u64 = 0;
    let mut i: u64 = 0;
    while i < n
        invariant
            dlen == d@.len(),
            dl == d@.len(),
            m == mask_mod(mask),
            n == stride_fit(d@.len() as int, list + 4 * ee, n as int, 64, 4),
            i <= n,
            r <= i,
            r == valid_entries(d@, list as int, i as nat, ee as int, mask_mod(mask), base as int),
        decreases n - i,
    {
        let off = list as u128 + 64 * i as u128 + 4 * ee as u128;
        assert(off + 4 <= dlen) by (nonlinear_arith)
            requires
                off == list + 64 * i + 4 * ee,
                i < n,
                n == stride_fit(dlen as int, list + 4 * ee, n as int, 64, 4),
        ;
        let val = r_u32(d, off as usize);
        let x = val % m;
        let o: u64 = if x >= base {
            (x - base) as u64
        } else {
            x as u64 + 0x1_0000_0000 - base as u64
        };
        assert(o == stash_offset(val as int, mask_mod(mask), base as int));
        assert(list + 64 * ((i + 1) - 1) + 4 * ee == off);
        let ghost prev = valid_entries(d@, list as int, i as nat, ee as int, mask_mod(mask), base as int);
        assert(valid_entries(d@, list as int, (i + 1) as nat, ee as int, mask_mod(mask), base as int)
            == prev + if val != 0 && stash_offset(val as int, mask_mod(mask), base as int) < d@.len() {
            1int
        } else {
            0
        });
        if val != 0 && (o as u128) < dlen {
            r += 1;
        }
        i += 1;
    }
    r
}

/// The layout of the stash list at `list` with `count` entries (see
/// [`stash_layout`]).
#[verifier::rlimit(50)]
pub fn detect_stash_entry_layout(d: &[u8], list: u64, count: u32) -> (r: StashLayout)
    ensures
        r == stash_layout(d@, list as int, count as int),
{
    let dl: usize = d.len();
    let dlen = dl as u64;
    let ms: u64 = if count < 50 {
        count as u64
    } else {
        50
    };
    let n = fit_u64(dlen, list as u128, ms, 64, 64);
    // Sentinel positions.
    let mut hits: Vec<u64> = vec![0u64; 16];
    let mut i: u64 = 0;
    while i < n
        invariant
            dlen == d@.len(),
            dl == d@.len(),
            n == stride_fit(d@.len() as int, list as int, ms as int, 64, 64),
            i <= n,
            hits@.len() == 16,
            forall|p: int| 0 <= p < 16 ==> #[trigger] hits@[p] == sentinel_hits(d@, list as int, i as nat, p),
            forall|p: int| 0 <= p < 16 ==> hits@[p] <= i,
        decreases n - i,
    {
        let off = list as u128 + 64 * i as u128;
        assert(off + 64 <= dlen) by (nonlinear_arith)
            requires
                off == list + 64 * i,
                i < n,
                n == stride_fit(dlen as int, list as int, ms as int, 64, 64),
        ;
        let f = first_sentinel_at(d, off as usize);
        let ghost old_hits = hits@;
        match f {
            Some(p) => {
                let h = hits[p as usize];
                hits.set(p as usize, h + 1);
            },
            None => {},
        }
        assert(list + 64 * ((i + 1) - 1) == off);
        assert forall|p: int| 0 <= p < 16 implies #[trigger] hits@[p] == sentinel_hits(
            d@,
            list as int,
            (i + 1) as nat,
            p,
        ) by {
            assert(sentinel_hits(d@, list as int, (i + 1) as nat, p) == sentinel_hits(
                d@,
                list as int,
                i as nat,
                p,
            ) + if first_sentinel(d@, off as int, 0) == Some(p) {
                1int
            } else {
                0
            });
            assert(old_hits[p] == sentinel_hits(d@, list as int, i as nat, p));
        }
        i += 1;
    }
    let ghost nn = n as nat;
    let mut sp: i64 = -1;
    let mut p: usize = 0;
    while p < 16
        invariant
            hits@.len() == 16,
            forall|q: int| 0 <= q < 16 ==> #[trigger] hits@[q] == sentinel_hits(d@, list as int, nn, q),
            p <= 16,
            sp == sentinel_best(d@, list as int, nn, p as int),
            -1 <= sp < p,
        decreases 16 - p,
    {
        let h = hits[p];
        if h > 0 && (sp == -1 || h >= hits[sp as usize]) {
            sp = p as i64;
        }
        p += 1;
    }
    let sc: u64 = if sp >= 0 {
        hits[sp as usize]
    } else {
        0
    };
    // Candidate words for the entry address.
    let mut cands: Vec<u64> = Vec::new();
    if sp >= 0 {
        cands.push((sp + 1) as u64);
        cands.push(1);
        assert(ints(cands@) =~= seq![sp + 1, 1int]);
        push_candidate(&mut cands, 1);
        push_candidate(&mut cands, (sp + 1) as u64);
        if sp >= 1 {
            push_candidate(&mut cands, (sp - 1) as u64);
        }
        push_candidate(&mut cands, 4);
        push_candidate(&mut cands, 5);
    } else {
        cands.push(1);
        assert(ints(cands@) =~= seq![1int]);
        push_candidate(&mut cands, 1);
        push_candidate(&mut cands, 4);
        push_candidate(&mut cands, 5);
        push_candidate(&mut cands, 2);
        push_candidate(&mut cands, 3);
    }
    let ghost cs = ee_candidates(sp as int);
    assert(ints(cands@) == cs);
    assert(forall|j: int| 0 <= j < cands@.len() ==> #[trigger] cands@[j] as int == cs[j]);
    assert(forall|j: int| 0 <= j < cs.len() ==> cs[j] <= 16) by {
        assert forall|j: int| 0 <= j < cs.len() implies cs[j] <= 16 by {
            lemma_candidates_small(sp as int, j);
        }
    }
    // Scoring.
    let mut best_score: u64 = 0;
    let mut best = StashLayout {
        sentinel_pos: sp as i32,
        ee_pos: 1,
        mask: 0x01FF_FFFF,
        base: 0x0010_0000,
        valid: 0,
        sentinel_count: sc,
        total_sampled: ms,
    };
    let total = 4 * cands.len();
    let mut c: usize = 0;
    while c < total
        invariant
            dlen == d@.len(),
            -1 <= sp < 16,
            ms == sample_count(count as int),
            sc == (if sp >= 0 {
                sentinel_hits(d@, list as int, nn, sp as int)
            } else {
                0
            }),
            cs == ee_candidates(sp as int),
            cands@.len() == cs.len(),
            forall|j: int| 0 <= j < cands@.len() ==> #[trigger] cands@[j] as int == cs[j],
            forall|j: int| 0 <= j < cs.len() ==> cs[j] <= 16,
            total == 4 * cands@.len(),
            c <= total,
            best_score as int == best_layout(d@, list as int, ms as int, sp as int, sc as int, c as nat).0,
            best == best_layout(d@, list as int, ms as int, sp as int, sc as int, c as nat).1,
            best_score <= 60,
        decreases total - c,
    {
        let ee = cands[c / 4];
        let (mask, base, valid, score) = score_config(d, list, ms, sp, ee, c);
        if score > best_score {
            best_score = score;
            best = StashLayout {
                sentinel_pos: sp as i32,
                ee_pos: ee,
                mask,
                base,
                valid,
                sentinel_count: sc,
                total_sampled: ms,
            };
        }
        c += 1;
    }
    best
}

/// Configuration `c` (word `ee`) scored: its mask, base, valid entries
/// and score.
fn score_config(d: &[u8], list: u64, ms: u64, sp: i64, ee: u64, c: usize) -> (r: (u32, u32, u64, u64))
    requires
        ee <= 16,
        -1 <= sp < 16,
        ms <= 50,
    ensures
        r.0 == config_mask(c as int),
        r.1 == config_base(c as int),
        r.2 == valid_entries(
            d@,
            list as int,
            stride_fit(d@.len() as int, list + 4 * ee, ms as int, 64, 4) as nat,
            ee as int,
            mask_mod(r.0),
            r.1 as int,
        ),
        r.3 == config_score(d@, list as int, ms as int, sp as int, ee as int, r.0, r.1),
        r.3 <= 60,
{
    let dlen = d.len() as u64;
    let mask: u32 = if (c / 2) % 2 == 0 {
        0x01FF_FFFF
    } else {
        0x00FF_FFFF
    };
    let base: u32 = if c % 2 == 0 {
        0x0010_0000
    } else {
        0
    };
    let ne = fit_u64(dlen, list as u128 + 4 * ee as u128, ms, 64, 4);
    assert(ne == stride_fit(d@.len() as int, list + 4 * ee, ne as int, 64, 4));
    let valid = count_valid(d, list, ne, ee, mask, base);
    let score = valid + if sp >= 0 && ee == (sp + 1) as u64 {
        10
    } else {
        0
    };
    (mask, base, valid, score)
}

proof fn lemma_candidates_small(sp: int, j: int)
    requires
        -1 <= sp < 16,
        0 <= j < ee_candidates(sp).len(),
    ensures
        ee_candidates(sp)[j] <= 16,
{
    let cs = ee_candidates(sp);
    if sp >= 0 {
        let s0 = seq![sp + 1, 1int];
        let s1 = add_candidate(add_candidate(s0, 1), sp + 1);
        let s2 = if sp >= 1 {
            add_candidate(s1, sp - 1)
        } else {
            s1
        };
        assert(forall|k: int| 0 <= k < s0.len() ==> s0[k] <= 16);
        assert(forall|k: int| 0 <= k < add_candidate(s0, 1).len() ==> add_candidate(s0, 1)[k] <= 16);
        assert(forall|k: int| 0 <= k < s1.len() ==> s1[k] <= 16);
        assert(forall|k: int| 0 <= k < s2.len() ==> s2[k] <= 16);
        assert(forall|k: int| 0 <= k < add_candidate(s2, 4).len() ==> add_candidate(s2, 4)[k] <= 16);
    } else {
        let t = add_candidate(add_candidate(add_candidate(add_candidate(seq![1int], 1), 4), 5), 2);
        assert(forall|k: int| 0 <= k < add_candidate(seq![1int], 1).len() ==> add_candidate(seq![1int], 1)[k] <= 16);
        assert(forall|k: int| 0 <= k < add_candidate(add_candidate(seq![1int], 1), 4).len() ==> add_candidate(add_candidate(seq![1int], 1), 4)[k] <= 16);
        assert(forall|k: int| 0 <= k < add_candidate(add_candidate(add_candidate(seq![1int], 1), 4), 5).len() ==> add_candidate(add_candidate(add_candidate(seq![1int], 1), 4), 5)[k] <= 16);
        assert(forall|k: int| 0 <= k < t.len() ==> t[k] <= 16);
    }
}


/// A stash entry resolved under a layout.
#[derive(Debug, Clone, Copy, PartialEq, Eq, Structural)]
pub struct ResolvedEntry {
    /// The entry's address word.
    pub ee_addr: u32,
    /// The address masked and rebased: an offset into the core data.
    pub file_off: usize,
    /// Whether that offset lies inside the core data.
    pub valid: bool,
    /// The word after the sentinel, or 0.
    pub flags: u32,
    /// Word 7 of the entry (a size hint), or 0.
    pub sz_hint: u32,
}

/// The entry at `entry_off` resolved under `layout`; all zero when fewer
/// than 16 bytes of it lie in the data.
pub open spec fn resolved_entry(d: Seq<u8>, e: int, layout: StashLayout) -> ResolvedEntry {
    if e + 16 > d.len() {
        ResolvedEntry { ee_addr: 0, file_off: 0, valid: false, flags: 0, sz_hint: 0 }
    } else {
        let ee = le_u32(d, e + 4 * layout.ee_pos);
        let fo = wrap_sub((ee as u32 & layout.mask) as int, layout.base as int);
        ResolvedEntry {
            ee_addr: ee as u32,
            file_off: fo as usize,
            valid: fo < d.len(),
            flags: if layout.sentinel_pos >= 0 && layout.sentinel_pos + 1 < 16 {
                le_u32(d, e + 4 * (layout.sentinel_pos + 1)) as u32
            } else {
                0
            },
            sz_hint: if e + 32 <= d.len() {
                le_u32(d, e + 28) as u32
            } else {
                0
            },
        }
    }
}

/// The entry at `entry_off` resolved under `layout` (see [`resolved_entry`]).
/// The address word and the word after the sentinel must lie in the data
/// whenever the entry's first 16 bytes do.
pub fn resolve_stash_entry(d: &[u8], entry_off: usize, layout: &StashLayout) -> (r: ResolvedEntry)
    requires
        entry_off + 16 <= d@.len() ==> entry_off + 4 * layout.ee_pos + 4 <= d@.len(),
        entry_off + 16 <= d@.len() && layout.sentinel_pos >= 0 && layout.sentinel_pos + 1 < 16
            ==> entry_off + 4 * (layout.sentinel_pos + 1) + 4 <= d@.len(),
    ensures
        r == resolved_entry(d@, entry_off as int, *layout),
{
    let dl: usize = d.len();
    if entry_off > dl || dl - entry_off < 16 {
        return ResolvedEntry { ee_addr: 0, file_off: 0, valid: false, flags: 0, sz_hint: 0 };
    }
    let ee_addr = r_u32(d, entry_off + 4 * layout.ee_pos as usize);
    let x = ee_addr & layout.mask;
    let fo: u32 = if x >= layout.base {
        x - layout.base
    } else {
        (x as u64 + 0x1_0000_0000 - layout.base as u64) as u32
    };
    let flags = if layout.sentinel_pos >= 0 && layout.sentinel_pos < 15 {
        let sp1: usize = (layout.sentinel_pos + 1) as usize;
        r_u32(d, entry_off + 4 * sp1)
    } else {
        0
    };
    let sz_hint = if dl - entry_off >= 32 {
        r_u32(d, entry_off + 28)
    } else {
        0
    };
    ResolvedEntry { ee_addr, file_off: fo as usize, valid: (fo as usize) < dl, flags, sz_hint }
}

/// Command byte of a VIF code word (bits 24..30).
pub open spec fn vc_cmd(val: int) -> int {
    val / 0x100_0000 % 128
}

/// Element count of a VIF code word (0 stands for 256).
pub open spec fn vc_num(val: int) -> int {
    if val / 0x1_0000 % 256 == 0 {
        256
    } else {
        val / 0x1_0000 % 256
    }
}

/// Whether the code is an UNPACK (command bits 5 and 6 set).
pub open spec fn vc_is_unpack(val: int) -> bool {
    vc_cmd(val) / 0x20 % 4 == 3
}

/// Whether the code is MSCAL or MSCALF.
pub open spec fn vc_is_mscal(val: int) -> bool {
    vc_cmd(val) == 0x14 || vc_cmd(val) == 0x15
}

/// The low four command bits of an UNPACK: component count and width.
pub open spec fn vc_vnvl(val: int) -> int {
    val / 0x100_0000 % 16
}

pub open spec fn vc_vn(val: int) -> int {
    vc_vnvl(val) / 4 % 4 + 1
}

pub open spec fn vc_vl(val: int) -> int {
    let k = vc_vnvl(val) % 4;
    if k == 0 {
        32
    } else if k == 1 {
        16
    } else if k == 2 {
        8
    } else {
        5
    }
}

/// Bytes of one unpacked element.
pub open spec fn vc_elem_size(val: int) -> int {
    (vc_vn(val) * vc_vl(val) + 7) / 8
}

/// Quadwords of an UNPACK's data.
pub open spec fn vc_qwc(val: int) -> int {
    (vc_num(val) * vc_elem_size(val) + 15) / 16
}

/// Bytes from one code to the next.
pub open spec fn vc_step(val: int) -> int {
    if vc_is_unpack(val) {
        4 + 16 * vc_qwc(val)
    } else {
        4
    }
}

pub proof fn lemma_vc_bounds(val: int)
    ensures
        1 <= vc_num(val) <= 256,
        1 <= vc_elem_size(val) <= 16,
        0 <= vc_qwc(val) <= 256,
        4 <= vc_step(val) <= 4100,
{
    let num = vc_num(val);
    let es = vc_elem_size(val);
    assert(1 <= vc_vn(val) <= 4);
    assert(vc_vn(val) * vc_vl(val) <= 128) by (nonlinear_arith)
        requires
            1 <= vc_vn(val) <= 4,
            5 <= vc_vl(val) <= 32,
    ;
    assert(vc_vn(val) * vc_vl(val) >= 5) by (nonlinear_arith)
        requires
            1 <= vc_vn(val) <= 4,
            5 <= vc_vl(val) <= 32,
    ;
    assert(0 <= num * es <= 4096) by (nonlinear_arith)
        requires
            1 <= num <= 256,
            1 <= es <= 16,
    ;
}

/// The offsets of the codes of the VIF chain from `ofs` up to `end`
/// (stopping after the first MSCAL), and the offset where it stops.
pub open spec fn vif_chain(d: Seq<u8>, ofs: int, end: int) -> (Seq<int>, int)
    decreases (if ofs < end {
        end - ofs
    } else {
        0
    }),
{
    if ofs + 4 > end {
        (seq![], ofs)
    } else {
        let val = le_u32(d, ofs);
        if vc_is_mscal(val) {
            (seq![ofs], ofs + 4)
        } else {
            proof {
                lemma_vc_bounds(val);
                assert(vc_step(val) >= 4);
            }
            let rest = vif_chain(d, ofs + vc_step(val), end);
            (seq![ofs] + rest.0, rest.1)
        }
    }
}

/// An UNPACK's decoded fields and data.
#[derive(Debug, Clone)]
pub struct StashUnpack {
    pub vnvl_raw: u8,
    /// Width of a component in bits.
    pub vl: u8,
    /// Components per element.
    pub vn: u8,
    pub elem_size: u64,
    pub qwc: u32,
    /// The data bytes that follow the code, cut at the chain's end.
    pub data: Vec<u8>,
}

/// One code of a stash VIF chain.
#[derive(Debug, Clone)]
pub struct StashVifCode {
    pub cmd: u8,
    pub num: u16,
    pub execaddr: u16,
    pub unpack: Option<StashUnpack>,
}

/// `c` is the code at offset `o` of the chain that ends at `end`.
pub open spec fn code_at(c: StashVifCode, d: Seq<u8>, o: int, end: int) -> bool {
    let val = le_u32(d, o);
    &&& c.cmd == vc_cmd(val)
    &&& c.num == vc_num(val)
    &&& c.execaddr == val % 0x1_0000
    &&& if vc_is_unpack(val) {
        &&& c.unpack is Some
        &&& c.unpack->0.vnvl_raw == vc_vnvl(val)
        &&& c.unpack->0.vn == vc_vn(val)
        &&& c.unpack->0.vl == vc_vl(val)
        &&& c.unpack->0.elem_size == vc_elem_size(val)
        &&& c.unpack->0.qwc == vc_qwc(val)
        &&& c.unpack->0.data@ == d.subrange(
            o + 4,
            if o + 4 + 16 * vc_qwc(val) < end {
                o + 4 + 16 * vc_qwc(val)
            } else {
                end
            },
        )
    } else {
        c.unpack is None
    }
}

/// The end of the chain read from `off` with at most `max` bytes.
pub open spec fn chain_limit(d: Seq<u8>, off: int, max: int) -> int {
    if off + max < d.len() {
        off + max
    } else {
        d.len() as int
    }
}

/// The code word `val` decoded, its UNPACK data taken from `d` at `ofs`.
fn read_vif_code(d: &[u8], ofs: usize, end: usize, val: u32) -> (c: StashVifCode)
    requires
        ofs + 4 <= end <= d@.len(),
        val as int == le_u32(d@, ofs as int),
    ensures
        code_at(c, d@, ofs as int, end as int),
{
    proof {
        lemma_vc_bounds(val as int);
    }
    let cmd = (val / 0x100_0000 % 128) as u8;
    let raw = val / 0x1_0000 % 256;
    let num: u16 = if raw == 0 {
        256
    } else {
        raw as u16
    };
    let execaddr = (val % 0x1_0000) as u16;
    if cmd / 0x20 % 4 == 3 {
        let vnvl = (val / 0x100_0000 % 16) as u8;
        let vn = vnvl / 4 % 4 + 1;
        let k = vnvl % 4;
        let vl: u8 = if k == 0 {
            32
        } else if k == 1 {
            16
        } else if k == 2 {
            8
        } else {
            5
        };
        let elem_size = ((vn as u64) * (vl as u64) + 7) / 8;
        let qwc = ((num as u64) * elem_size + 15) / 16;
        let data_start = ofs + 4;
        let data_end = if (qwc as usize) * 16 < end - data_start {
            data_start + (qwc as usize) * 16
        } else {
            end
        };
        let mut data: Vec<u8> = Vec::new();
        push_range(&mut data, d, data_start, data_end);
        assert(data@ =~= d@.subrange(ofs + 4, data_end as int));
        StashVifCode {
            cmd,
            num,
            execaddr,
            unpack: Some(StashUnpack { vnvl_raw: vnvl, vl, vn, elem_size, qwc: qwc as u32, data }),
        }
    } else {
        StashVifCode { cmd, num, execaddr, unpack: None }
    }
}

/// The VIF chain at `vif_offset`, read up to `max_size` bytes (and the end
/// of the data): every code until the first MSCAL or MSCALF, which is
/// included; UNPACK codes carry their data. Returns the codes and the bytes
/// consumed.
pub fn parse_vif_chain(d: &[u8], vif_offset: usize, max_size: usize) -> (r: (Vec<StashVifCode>, usize))
    requires
        vif_offset + max_size + 0x1000 <= usize::MAX,
    ensures
        ({
            let end = chain_limit(d@, vif_offset as int, max_size as int);
            let ch = vif_chain(d@, vif_offset as int, end);
            &&& r.0@.len() == ch.0.len()
            &&& forall|i: int| 0 <= i < ch.0.len() ==> code_at(#[trigger] r.0@[i], d@, ch.0[i], end)
            &&& r.1 == ch.1 - vif_offset
        }),
{
    let dl = d.len();
    let end: usize = if vif_offset + max_size < dl {
        vif_offset + max_size
    } else {
        dl
    };
    if end < 4 || vif_offset > end - 4 {
        return (Vec::new(), 0);
    }
    let ghost full = vif_chain(d@, vif_offset as int, end as int);
    let ghost mut offs: Seq<int> = seq![];
    let mut cmds: Vec<StashVifCode> = Vec::new();
    let mut ofs = vif_offset;
    let mut done = false;
    while !done && end >= 4 && ofs <= end - 4
        invariant
            dl == d@.len(),
            end <= dl,
            end == chain_limit(d@, vif_offset as int, max_size as int),
            end + 0x1000 <= usize::MAX,
            vif_offset <= ofs <= end + 0x1000,
            full == vif_chain(d@, vif_offset as int, end as int),
            cmds@.len() == offs.len(),
            forall|i: int| 0 <= i < offs.len() ==> code_at(#[trigger] cmds@[i], d@, offs[i], end as int),
            done ==> full.0 == offs && full.1 == ofs,
            !done ==> full.0 == offs + vif_chain(d@, ofs as int, end as int).0 && full.1 == vif_chain(
                d@,
                ofs as int,
                end as int,
            ).1,
        decreases end + 0x1000 - ofs,
    {
        let val = r_u32(d, ofs);
        proof {
            lemma_vc_bounds(val as int);
        }
        let code = read_vif_code(d, ofs, end, val);
        let cmd = code.cmd;
        let step: usize = match &code.unpack {
            Some(up) => 4 + 16 * (up.qwc as usize),
            None => 4,
        };
        let ghost rest = vif_chain(d@, ofs as int, end as int);
        proof {
            offs = offs.push(ofs as int);
        }
        cmds.push(code);
        if cmd == 0x14 || cmd == 0x15 {
            ofs += 4;
            done = true;
            assert(full.0 =~= offs);
        } else {
            assert(step == vc_step(val as int));
            ofs += step;
            assert(rest.0 =~= seq![(ofs - step) as int] + vif_chain(d@, ofs as int, end as int).0);
            assert(full.0 =~= offs + vif_chain(d@, ofs as int, end as int).0);
        }
    }
    (cmds, ofs - vif_offset)
}

} // verus!
