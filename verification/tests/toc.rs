use rac_tools::toc::{
    find_level_table_start, find_level_wad_entry, find_levels, identify_wad, parse_global_wad_headers,
    parse_level_headers, parse_levels_from_toc, scan_for_level_table, scan_global_headers, TocError,
};

fn put_u32(buf: &mut [u8], off: usize, v: u32) {
    buf[off..off + 4].copy_from_slice(&v.to_le_bytes());
}

const TOC: usize = 1001 * 0x800;
const SIZES: [u32; 8] = [0x0648, 0x0048, 0x0BF0, 0x0C30, 0x0398, 0x2340, 0x03C8, 0x2AB0];

/// An image with the 8 global headers at the TOC, then 2 bytes of zero
/// padding words, then a level table of 3 rows; level headers at sectors
/// 2000.. name file sectors 3000..
fn image() -> (Vec<u8>, usize) {
    let mut iso = vec![0u8; 2100 * 0x800];
    let mut pos = TOC;
    for (i, &s) in SIZES.iter().enumerate() {
        put_u32(&mut iso, pos, s);
        put_u32(&mut iso, pos + 4, 100 + i as u32);
        pos += s as usize;
    }
    let table = pos + 8; // two zero words before the table
    for lvl in 0..3u32 {
        for w in 0..3u32 {
            let row = table + 24 * lvl as usize + 8 * w as usize;
            let hdr_sector = 2000 + lvl * 3 + w;
            put_u32(&mut iso, row, hdr_sector);
            put_u32(&mut iso, row + 4, 10 + w);
            put_u32(&mut iso, hdr_sector as usize * 0x800, 0x60);
            put_u32(&mut iso, hdr_sector as usize * 0x800 + 4, 3000 + lvl * 3 + w);
            put_u32(&mut iso, hdr_sector as usize * 0x800 + 8, 42);
        }
    }
    (iso, table - TOC)
}

#[test]
fn global_headers_and_level_table() {
    let (iso, table) = image();
    let toc = &iso[TOC..TOC + 0x200000.min(iso.len() - TOC)];
    let (wads, end) = scan_global_headers(toc);
    assert_eq!(wads.len(), 8);
    assert_eq!(wads[0].name, "MPEG");
    assert_eq!(wads[7].name, "HUD");
    assert_eq!(wads[5].sector, 105);
    assert_eq!(wads[6].hdr_size, 0x03C8);
    assert_eq!(end, table - 8);
    assert_eq!(find_level_table_start(toc, end), table);
    let levels = find_levels(&iso, toc, end);
    assert_eq!(levels.len(), 3);
    assert_eq!(levels[2].number, 2);
    assert_eq!(levels[1].ranges[2].offset, 2000 + 3 + 2);
    assert_eq!(levels[1].ranges[2].size, 12);
    assert_eq!(levels[1].ranges[2].file_sector, Some(3000 + 3 + 2));
}

#[test]
fn global_headers_stop_at_unknown_size() {
    let mut toc = vec![0u8; 0x100];
    put_u32(&mut toc, 0, 0x48);
    put_u32(&mut toc, 4, 9);
    let (wads, end) = scan_global_headers(&toc);
    assert_eq!(wads.len(), 0);
    assert_eq!(end, 0);
    let (gw, gend) = parse_global_wad_headers(&toc, 0);
    assert_eq!(gw.len(), 1);
    assert_eq!(gw[0].name, "MISC");
    assert_eq!(gw[0].wtype, "misc");
    assert_eq!(gw[0].game, "UYA");
    assert_eq!(gw[0].sector, 9);
    assert_eq!(gw[0].size_sectors, Some(0));
    assert_eq!(gend, 0x48);
}

#[test]
fn identify_known_sizes() {
    let mut h = vec![0u8; 8];
    put_u32(&mut h, 0, 0x2340);
    let (g, n, w) = identify_wad(&h);
    assert_eq!(g.as_deref(), Some("UYA"));
    assert_eq!(n.as_deref(), Some("AUDIO"));
    assert_eq!(w.as_deref(), Some("audio"));
    put_u32(&mut h, 0, 0x1234);
    assert_eq!(identify_wad(&h), (None, None, None));
    assert_eq!(identify_wad(&h[..3]), (None, None, None));
}

#[test]
fn toc_report_levels_and_headers() {
    let (iso, table) = image();
    let toc = &iso[TOC..];
    let levels = scan_for_level_table(toc, table - 4);
    assert_eq!(levels.len(), 3);
    assert_eq!(levels[0].ranges[0].header_size, None);
    let levels = parse_level_headers(&iso, levels);
    assert_eq!(levels[2].ranges[1].header_size, Some(0x60));
    assert_eq!(levels[2].ranges[1].file_sector, Some(3000 + 6 + 1));
    assert_eq!(levels[2].ranges[1].file_id, Some(42));
}

#[test]
fn level_wad_entry_through_toc() {
    let (iso, _) = image();
    let e = find_level_wad_entry(&iso, 1).expect("level 1");
    assert_eq!(e.file_lba, 3000 + 3 + 1);
    assert_eq!(e.wad_sectors, 11);
    assert!(matches!(find_level_wad_entry(&iso, 3), Err(TocError::LevelNotFound(3))));
    assert!(matches!(find_level_wad_entry(&iso[..TOC + 4], 0), Err(TocError::TocOutOfBounds)));
}

#[test]
fn levels_for_iso_packing() {
    let (iso, table) = image();
    let (levels, end) = parse_levels_from_toc(&iso, TOC).expect("levels");
    assert_eq!(levels.len(), 3);
    assert_eq!(levels[0].toc_offset, table);
    assert_eq!(levels[2].level_range, (2000 + 6 + 1, 11));
    assert_eq!(levels[2].scene_range, (2000 + 6 + 2, 12));
    assert_eq!(end, table + 72);
    assert!(matches!(parse_levels_from_toc(&iso, iso.len() - 2), Err(TocError::TocOutOfBounds)));
}
