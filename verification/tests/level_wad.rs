use rac_tools::iso_pack::{replace_wad_in_image, ReplaceOutcome};
use rac_tools::level_wad::{repack_level_wad, unpack_level_data, RepackError};
use rac_tools::wad::decompress_wad_lz;

fn put_u32(buf: &mut [u8], off: usize, v: u32) {
    buf[off..off + 4].copy_from_slice(&v.to_le_bytes());
}

fn get_u32(buf: &[u8], off: usize) -> u32 {
    u32::from_le_bytes([buf[off], buf[off + 1], buf[off + 2], buf[off + 3]])
}

/// A small original level WAD: header in sector 0, a 1-sector sound bank at
/// sector 1, the data header at sector 2, gameplay at sector 3.
fn original_wad() -> Vec<u8> {
    let mut raw = vec![0u8; 4 * 0x800];
    put_u32(&mut raw, 0, 96);
    put_u32(&mut raw, 8, 7); // level number
    put_u32(&mut raw, 12, 3); // reverb
    put_u32(&mut raw, 0x10, 2); // data sector
    put_u32(&mut raw, 0x14, 1);
    put_u32(&mut raw, 0x18, 1); // sound bank sector
    put_u32(&mut raw, 0x1C, 1);
    put_u32(&mut raw, 0x20, 3); // gameplay sector
    put_u32(&mut raw, 0x24, 1);
    for b in &mut raw[0x800..0x1000] {
        *b = 0xAB;
    }
    for b in &mut raw[0x1800..0x2000] {
        *b = 0xCD;
    }
    // data header: every entry present except transition textures (-1, 0)
    for i in 0..10 {
        put_u32(&mut raw, 0x1000 + i * 8, 0x100);
        put_u32(&mut raw, 0x1000 + i * 8 + 4, 0x10);
    }
    put_u32(&mut raw, 0x1000 + 80, 0xFFFF_FFFF);
    put_u32(&mut raw, 0x1000 + 84, 0);
    raw
}

fn sections() -> Vec<Option<Vec<u8>>> {
    (0..11)
        .map(|i| {
            if i == 10 {
                None
            } else if i == 3 {
                Some(Vec::new())
            } else {
                Some((0..(200 + 37 * i)).map(|k| ((k * 7 + i) % 11) as u8).collect())
            }
        })
        .collect()
}

#[test]
fn repack_then_unpack_gives_sections_back() {
    let raw = original_wad();
    let files = sections();
    let out = repack_level_wad(&raw, &files).expect("repack");
    assert_eq!(out.len() % 0x800, 0);
    // header: size 96, level number and reverb kept, data sector after the sound bank
    assert_eq!(get_u32(&out, 0), 96);
    assert_eq!(get_u32(&out, 8), 7);
    assert_eq!(get_u32(&out, 12), 3);
    assert_eq!(get_u32(&out, 0x10), 2);
    assert_eq!(get_u32(&out, 0x18), 1);
    // gameplay names its copy, right after the data section
    let data_sectors = get_u32(&out, 0x14);
    assert_eq!(get_u32(&out, 0x20), 2 + data_sectors);
    assert_eq!(get_u32(&out, 0x24), 1);
    // the sound bank follows sector 0
    assert!(out[0x800..0x1000].iter().all(|&b| b == 0xAB));
    let back = unpack_level_data(&out);
    assert_eq!(back.len(), 11);
    for (i, f) in files.iter().enumerate() {
        match f {
            Some(v) if !v.is_empty() => assert_eq!(back[i].as_ref(), Some(v), "section {}", i),
            _ => assert_eq!(back[i], None, "section {}", i),
        }
    }
    // empty entries: (0, 0), and (-1, 0) for transition textures
    assert_eq!(get_u32(&out, 0x1000 + 3 * 8), 0);
    assert_eq!(get_u32(&out, 0x1000 + 3 * 8 + 4), 0);
    assert_eq!(get_u32(&out, 0x1000 + 80), 0xFFFF_FFFF);
    assert_eq!(get_u32(&out, 0x1000 + 84), 0);
    // first section right after the data header's sector, 16-byte aligned
    assert_eq!(get_u32(&out, 0x1000), 0x800);
    let size0 = get_u32(&out, 0x1004) as usize;
    assert_eq!(get_u32(&out, 0x1008) as usize, 0x800 + ((size0 + 15) / 16) * 16);
    let sec0 = &out[0x1000 + 0x800..0x1000 + 0x800 + size0];
    assert_eq!(decompress_wad_lz(sec0).unwrap(), files[0].clone().unwrap());
}

#[test]
fn repack_errors() {
    let raw = original_wad();
    assert_eq!(repack_level_wad(&raw[..95], &sections()), Err(RepackError::WadTooSmall));
    let mut files = sections();
    files[4] = None;
    files[6] = None;
    assert_eq!(repack_level_wad(&raw, &files), Err(RepackError::MissingSection(4)));
    // an entry the original has no data for (-1, <= 0) may be missing
    let mut raw2 = original_wad();
    put_u32(&mut raw2, 0x1000 + 4 * 8, 0xFFFF_FFFF);
    put_u32(&mut raw2, 0x1000 + 4 * 8 + 4, 0);
    let mut files2 = sections();
    files2[4] = None;
    assert!(repack_level_wad(&raw2, &files2).is_ok());
}

#[test]
fn repack_without_sound_bank_puts_data_at_sector_1() {
    let mut raw = original_wad();
    put_u32(&mut raw, 0x18, 0);
    put_u32(&mut raw, 0x1C, 0);
    let files = sections();
    let out = repack_level_wad(&raw, &files).expect("repack");
    assert_eq!(get_u32(&out, 0x10), 1);
    let back = unpack_level_data(&out);
    assert_eq!(back[0].as_ref(), files[0].as_ref());
    assert_eq!(back[9].as_ref(), files[9].as_ref());
}

#[test]
fn repack_headers_name_the_copied_ranges() {
    // sound bank at sector 2 (two sectors), occlusion after gameplay
    let mut raw = vec![0u8; 7 * 0x800];
    raw[..0x1000].copy_from_slice(&original_wad()[..0x1000]);
    put_u32(&mut raw, 0x10, 1); // data header at sector 1
    put_u32(&mut raw, 0x18, 2);
    put_u32(&mut raw, 0x1C, 2);
    put_u32(&mut raw, 0x20, 4);
    put_u32(&mut raw, 0x24, 1);
    put_u32(&mut raw, 0x28, 5);
    put_u32(&mut raw, 0x2C, 2);
    let hdr = original_wad()[0x1000..0x1800].to_vec();
    raw[0x800..0x1000].copy_from_slice(&hdr);
    for (k, b) in raw[0x1000..0x2000].iter_mut().enumerate() {
        *b = (k % 251) as u8;
    }
    for b in &mut raw[0x2000..0x2800] {
        *b = 0xCD;
    }
    for b in &mut raw[0x2800..0x3800] {
        *b = 0xEE;
    }
    let out = repack_level_wad(&raw, &sections()).expect("repack");
    for (field, sectors) in [(0x18usize, 2usize), (0x20, 1), (0x28, 2)] {
        let s2 = get_u32(&out, field) as usize;
        assert_eq!(get_u32(&out, field + 4) as usize, sectors);
        let orig = get_u32(&raw, field) as usize;
        assert_eq!(
            &out[s2 * 0x800..(s2 + sectors) * 0x800],
            &raw[orig * 0x800..(orig + sectors) * 0x800],
            "range at {:#X}",
            field
        );
    }
    assert_eq!(get_u32(&out, 0x18), 1);
    assert_eq!(get_u32(&out, 0x10), 3);
    let back = unpack_level_data(&out);
    assert_eq!(back[0].as_ref(), sections()[0].as_ref());
}

#[test]
fn repack_truncated_gameplay_is_zero_padded() {
    let mut raw = original_wad();
    put_u32(&mut raw, 0x24, 3); // gameplay claims 3 sectors, 1 is there
    let out = repack_level_wad(&raw, &sections()).expect("repack");
    let data_sectors = get_u32(&out, 0x14) as usize;
    let gp = 0x1000 + data_sectors * 0x800;
    assert!(out[gp..gp + 0x800].iter().all(|&b| b == 0xCD));
    assert!(out[gp + 0x800..gp + 3 * 0x800].iter().all(|&b| b == 0));
    assert_eq!(out.len(), gp + 3 * 0x800);
}

#[test]
fn unpack_skips_bad_entries_and_keeps_raw_chunks() {
    let mut raw = vec![0u8; 0x1000];
    put_u32(&mut raw, 0x10, 1);
    let d = 0x800;
    // entry 0: raw bytes (no WAD magic)
    put_u32(&mut raw, d, 0x100);
    put_u32(&mut raw, d + 4, 4);
    raw[d + 0x100..d + 0x104].copy_from_slice(b"abcd");
    // entry 1: negative offset
    put_u32(&mut raw, d + 8, 0xFFFF_FFF0);
    put_u32(&mut raw, d + 12, 4);
    // entry 2: past the end
    put_u32(&mut raw, d + 16, 0x7F0);
    put_u32(&mut raw, d + 20, 0x20);
    // entry 3: WAD magic but not a valid block: kept raw
    put_u32(&mut raw, d + 24, 0x200);
    put_u32(&mut raw, d + 28, 5);
    raw[d + 0x200..d + 0x205].copy_from_slice(b"WADxx");
    let back = unpack_level_data(&raw);
    assert_eq!(back[0], Some(b"abcd".to_vec()));
    assert_eq!(back[1], None);
    assert_eq!(back[2], None);
    assert_eq!(back[3], Some(b"WADxx".to_vec()));
    assert_eq!(back[4], None);
}

#[test]
fn iso_replace_in_place() {
    let mut iso = vec![0u8; 8 * 0x800];
    // WAD header in sector 1: data at sector 4, spanning 2 sectors
    put_u32(&mut iso, 0x800 + 4, 4);
    put_u32(&mut iso, 0x800 + 8, 2);
    for b in &mut iso[4 * 0x800..6 * 0x800] {
        *b = 0xEE;
    }
    let mut repacked = vec![7u8; 100];
    put_u32(&mut repacked, 0x10, 9);
    put_u32(&mut repacked, 0x14, 1);
    let outcome = replace_wad_in_image(&mut iso, 0x100, 1, 2, &repacked);
    assert_eq!(outcome, ReplaceOutcome::Replaced(1));
    assert_eq!(&iso[4 * 0x800..4 * 0x800 + 100], &repacked[..]);
    assert!(iso[4 * 0x800 + 100..6 * 0x800].iter().all(|&b| b == 0));
    assert_eq!(get_u32(&iso, 0x800 + 8), 1);
    assert_eq!(get_u32(&iso, 0x800 + 0x10), 9);
    assert_eq!(get_u32(&iso, 0x800 + 0x14), 1);
    assert_eq!(get_u32(&iso, 0x100), 1);
    // too large, beyond the image, truncated header: image untouched
    let before = iso.clone();
    assert_eq!(
        replace_wad_in_image(&mut iso, 0x100, 1, 2, &vec![1u8; 3 * 0x800]),
        ReplaceOutcome::TooLarge(3)
    );
    assert_eq!(replace_wad_in_image(&mut iso, 0x100, 1, 5, &repacked), ReplaceOutcome::BeyondImage);
    assert_eq!(replace_wad_in_image(&mut iso, 0x100, 8, 1, &repacked), ReplaceOutcome::TruncatedHeader);
    assert_eq!(iso, before);
}
