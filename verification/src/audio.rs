//! Level audio WADs: a header of (sector, byte size) pairs naming VAGp
//! (PS2 ADPCM) sound files.

use vstd::prelude::*;
use crate::common::{le_u32, r_u32};
use crate::wad::copy_range;

verus! {

/// Why an audio WAD cannot be read.
#[derive(Debug, Clone, Copy, PartialEq, Eq, Structural)]
pub enum AudioError {
    /// Shorter than its 8-byte header start.
    TooShort,
    /// The header size (first word) is below 8 or past the end of the data.
    InvalidHeaderSize(u32),
}

/// A VAG file of an audio WAD: its entry, its bytes, and the bytes of the
/// name in its VAGp header.
pub struct VagFile {
    pub index: u32,
    pub data: Vec<u8>,
    pub name: Vec<u8>,
}

/// Position of the first NUL of `s` from `i` on, or `s.len()`.
pub open spec fn first_nul_from(s: Seq<u8>, i: int) -> int
    decreases s.len() - i,
{
    if i < 0 || i >= s.len() {
        s.len() as int
    } else if s[i] == 0 {
        i
    } else {
        first_nul_from(s, i + 1)
    }
}

/// The name field of a VAGp header (bytes 0x1C..0x2C, up to the first
/// NUL); empty when the file is shorter than 0x2C bytes.
pub open spec fn vag_name(chunk: Seq<u8>) -> Seq<u8> {
    if chunk.len() >= 0x2C {
        let field = chunk.subrange(0x1C, 0x2C);
        field.subrange(0, first_nul_from(field, 0))
    } else {
        Seq::empty()
    }
}

/// Number of entries of the header.
pub open spec fn audio_entry_count(a: Seq<u8>) -> int {
    (le_u32(a, 0) - 8) / 8
}

/// The bytes that entry `i` names, when it names a VAGp file inside the
/// WAD: sector and size non-zero, in bounds, starting with "VAGp".
pub open spec fn vag_entry(a: Seq<u8>, i: int) -> Option<Seq<u8>> {
    let sec = le_u32(a, 8 + 8 * i);
    let sz = le_u32(a, 12 + 8 * i);
    let off = sec * 0x800;
    if sec == 0 || sz == 0 || off + sz > a.len() {
        None
    } else {
        let chunk = a.subrange(off, off + sz);
        if chunk.len() >= 4 && chunk[0] == 0x56u8 && chunk[1] == 0x41u8 && chunk[2] == 0x47u8
            && chunk[3] == 0x70u8 {
            Some(chunk)
        } else {
            None
        }
    }
}

/// The entries among the first `n` that name VAGp files.
pub open spec fn vag_entries(a: Seq<u8>, n: nat) -> Seq<int>
    decreases n,
{
    if n == 0 {
        Seq::empty()
    } else if vag_entry(a, n - 1) is Some {
        vag_entries(a, (n - 1) as nat).push(n - 1)
    } else {
        vag_entries(a, (n - 1) as nat)
    }
}

/// The header is readable: at least 8 bytes, a header size of 8 up to the
/// data's length.
pub open spec fn audio_header_ok(a: Seq<u8>) -> bool {
    a.len() >= 8 && 8 <= le_u32(a, 0) <= a.len()
}

fn name_field(chunk: &[u8]) -> (r: Vec<u8>)
    ensures
        r@ == vag_name(chunk@),
{
    if chunk.len() < 0x2C {
        return Vec::new();
    }
    let ghost field = chunk@.subrange(0x1C, 0x2C);
    let mut e: usize = 0;
    while e < 16 && chunk[0x1C + e] != 0
        invariant
            chunk@.len() >= 0x2C,
            field == chunk@.subrange(0x1C, 0x2C),
            e <= 16,
            first_nul_from(field, 0) == first_nul_from(field, e as int),
        decreases 16 - e,
    {
        e += 1;
    }
    let r = copy_range(chunk, 0x1C, 0x1C + e);
    assert(r@ =~= field.subrange(0, e as int));
    r
}

/// The VAG files of an audio WAD, in entry order (see [`vag_entry`]).
pub fn audio_vag_files(a: &[u8]) -> (r: Result<Vec<VagFile>, AudioError>)
    ensures
        a@.len() < 8 ==> r == Err::<Vec<VagFile>, AudioError>(AudioError::TooShort),
        a@.len() >= 8 && !audio_header_ok(a@) ==> (r matches Err(e) && e
            == AudioError::InvalidHeaderSize(le_u32(a@, 0) as u32)),
        audio_header_ok(a@) ==> (r matches Ok(v) && {
            let keys = vag_entries(a@, audio_entry_count(a@) as nat);
            &&& v@.len() == keys.len()
            &&& forall|j: int|
                0 <= j < v@.len() ==> {
                    let f = #[trigger] v@[j];
                    &&& f.index == keys[j]
                    &&& vag_entry(a@, keys[j]) == Some(f.data@)
                    &&& f.name@ == vag_name(f.data@)
                }
        }),
{
    if a.len() < 8 {
        return Err(AudioError::TooShort);
    }
    let hdr = r_u32(a, 0);
    if hdr < 8 || hdr as usize > a.len() {
        return Err(AudioError::InvalidHeaderSize(hdr));
    }
    let n = (hdr - 8) / 8;
    let alen = a.len();
    let mut v: Vec<VagFile> = Vec::new();
    let mut i: u32 = 0;
    while i < n
        invariant
            alen == a@.len(),
            audio_header_ok(a@),
            hdr == le_u32(a@, 0),
            n == audio_entry_count(a@),
            i <= n,
            v@.len() == vag_entries(a@, i as nat).len(),
            forall|j: int|
                0 <= j < v@.len() ==> {
                    let f = #[trigger] v@[j];
                    &&& f.index == vag_entries(a@, i as nat)[j]
                    &&& vag_entry(a@, vag_entries(a@, i as nat)[j]) == Some(f.data@)
                    &&& f.name@ == vag_name(f.data@)
                },
        decreases n - i,
    {
        let ghost prev = vag_entries(a@, i as nat);
        let e = 8 + 8 * (i as usize);
        let sec = r_u32(a, e);
        let sz = r_u32(a, e + 4);
        let off = sec as u64 * 0x800;
        let mut kept = false;
        if sec != 0 && sz != 0 && off + sz as u64 <= alen as u64 {
            let chunk = copy_range(a, off as usize, (off + sz as u64) as usize);
            if chunk.len() >= 4 && chunk[0] == 0x56 && chunk[1] == 0x41 && chunk[2] == 0x47
                && chunk[3] == 0x70 {
                kept = true;
                let name = name_field(chunk.as_slice());
                let ghost old_v = v@;
                let f = VagFile { index: i, data: chunk, name };
                v.push(f);
                assert(vag_entries(a@, (i + 1) as nat) =~= prev.push(i as int));
                assert(forall|j: int| 0 <= j < old_v.len() ==> v@[j] == old_v[j]);
            }
        }
        if !kept {
            assert(vag_entry(a@, i as int) is None);
            assert(vag_entries(a@, (i + 1) as nat) =~= prev);
        }
        i += 1;
    }
    Ok(v)
}

} // verus!
