use rac_tools::gameplay::{block_size, parse_gameplay, parse_groups, parse_help_messages};

fn put_u32(buf: &mut [u8], off: usize, v: u32) {
    buf[off..off + 4].copy_from_slice(&v.to_le_bytes());
}

fn put_u16(buf: &mut [u8], off: usize, v: u16) {
    buf[off..off + 2].copy_from_slice(&v.to_le_bytes());
}

fn sample() -> Vec<u8> {
    let mut d = vec![0u8; 0xB00];
    // level settings at 0x100: 22 words, one chunk plane
    put_u32(&mut d, 0x00, 0x100);
    for j in 0..22 {
        put_u32(&mut d, 0x100 + 4 * j, 100 + j as u32);
    }
    put_u32(&mut d, 0x168, 1);
    for j in 0..7 {
        put_u32(&mut d, 0x15c + 4 * j, 200 + j as u32);
    }
    put_u32(&mut d, 0x168, 1);
    // cameras at 0x200: two of 8 words
    put_u32(&mut d, 0x08, 0x200);
    put_u32(&mut d, 0x200, 2);
    for w in 0..16 {
        put_u32(&mut d, 0x210 + 4 * w, 300 + w as u32);
    }
    // moby groups at 0x300
    put_u32(&mut d, 0x50, 0x300);
    put_u32(&mut d, 0x300, 2);
    put_u32(&mut d, 0x304, 8);
    put_u32(&mut d, 0x310, 0);
    put_u32(&mut d, 0x314, 4);
    put_u16(&mut d, 0x320, 1);
    put_u16(&mut d, 0x322, 0x8002);
    put_u16(&mut d, 0x324, 3);
    put_u16(&mut d, 0x326, 0x8004);
    // tie ambient colours at 0x400
    put_u32(&mut d, 0x94, 0x400);
    put_u16(&mut d, 0x400, 0);
    put_u16(&mut d, 0x402, 2);
    d[0x404..0x408].copy_from_slice(&[1, 2, 3, 4]);
    put_u16(&mut d, 0x408, 0xFFFF);
    // pvar moby links at 0x500
    put_u32(&mut d, 0x58, 0x500);
    put_u32(&mut d, 0x500, 1);
    put_u32(&mut d, 0x504, 0x10);
    put_u32(&mut d, 0x508, 2);
    put_u32(&mut d, 0x50c, 0x20);
    put_u32(&mut d, 0x510, 0xFFFF_FFFF);
    // pvar data at 0x600 (runs up to the occlusion block)
    put_u32(&mut d, 0x60, 0x600);
    // occlusion at 0x700
    put_u32(&mut d, 0x90, 0x700);
    put_u32(&mut d, 0x700, 5);
    put_u32(&mut d, 0x704, 6);
    put_u32(&mut d, 0x708, 7);
    // areas at 0x800: one area, two path links
    put_u32(&mut d, 0x98, 0x800);
    put_u32(&mut d, 0x804, 1);
    put_u32(&mut d, 0x808, 0x60);
    put_u16(&mut d, 0x824 + 0x10, 2);
    put_u32(&mut d, 0x824 + 0x1c, 0);
    put_u32(&mut d, 0x864, 9);
    put_u32(&mut d, 0x868, 10);
    // paths at 0x900: one spline of two vertices
    put_u32(&mut d, 0x78, 0x900);
    put_u32(&mut d, 0x900, 1);
    put_u32(&mut d, 0x904, 0x20);
    put_u32(&mut d, 0x910, 0);
    put_u32(&mut d, 0x920, 2);
    for w in 0..8 {
        put_u32(&mut d, 0x930 + 4 * w, 400 + w as u32);
    }
    // point lights at 0xA00
    put_u32(&mut d, 0x80, 0xA00);
    put_u32(&mut d, 0xA00, 1);
    for k in 0..8 {
        put_u16(&mut d, 0xA10 + 2 * k, 1 + k as u16);
    }
    d
}

#[test]
fn gameplay_blocks() {
    let d = sample();
    let g = parse_gameplay(&d).expect("reads");
    assert_eq!(g.file_size, 0xB00);
    assert_eq!(g.pointers.len(), 39);
    assert_eq!(g.pointers[1], 0x100);
    let ls = g.level_settings.as_ref().unwrap();
    assert_eq!(ls.words.len(), 22);
    assert_eq!(ls.words[21], 121);
    assert_eq!(ls.chunk_planes, vec![vec![200, 201, 202, 1, 204, 205, 206]]);
    let cams = g.cameras.as_ref().unwrap();
    assert_eq!(cams.len(), 2);
    assert_eq!(cams[1], (308..316).collect::<Vec<u32>>());
    assert_eq!(g.moby_groups, Some(vec![vec![1, 2], vec![3, 4]]));
    assert_eq!(g.tie_ambient_rgbas, Some(vec![vec![1, 2, 3, 4]]));
    assert_eq!(g.pvar_moby_links, Some(vec![(1, 0x10), (2, 0x20)]));
    assert_eq!(g.pvar_relative_pointers, None);
    assert_eq!(g.pvar_data_size, Some(0x100));
    assert_eq!(g.cam_coll_grid_size, None);
    assert_eq!(g.occlusion, Some(vec![5, 6, 7]));
    let areas = g.areas.as_ref().unwrap();
    assert_eq!(areas.count, 1);
    assert_eq!(areas.parts, vec![0x60, 0, 0, 0, 0]);
    assert_eq!(areas.areas[0].part_counts, vec![2, 0, 0, 0, 0]);
    assert_eq!(areas.areas[0].links[0], vec![9, 10]);
    assert!(areas.areas[0].links[1].is_empty());
    let paths = g.paths.as_ref().unwrap();
    assert_eq!(paths.len(), 1);
    assert_eq!(paths[0], vec![vec![400, 401, 402, 403], vec![404, 405, 406, 407]]);
    assert_eq!(g.point_lights, Some(vec![vec![1, 2, 3, 4, 5, 6, 7]]));
    assert!(g.dir_lights.is_none());
    assert_eq!(g.help.len(), 8);
    assert!(g.help.iter().all(|h| h.is_none()));
    assert_eq!(g.shapes.len(), 4);
}

#[test]
fn gameplay_refusals() {
    let d = sample();
    assert!(parse_gameplay(&d[..0x9b]).is_none());
    // a negative camera count
    let mut bad = d.clone();
    put_u32(&mut bad, 0x200, 0xFFFF_FFFF);
    assert!(parse_gameplay(&bad).is_none());
    // a camera table running past the end
    let mut bad = d.clone();
    put_u32(&mut bad, 0x200, 0x1000);
    assert!(parse_gameplay(&bad).is_none());
    // colour lists that run off the end
    let mut bad = d.clone();
    put_u16(&mut bad, 0x408, 0);
    put_u16(&mut bad, 0x40A, 0x7FFF);
    assert!(parse_gameplay(&bad).is_none());
}

#[test]
fn groups_stop_at_flag_or_size() {
    let mut d = vec![0u8; 0x40];
    put_u32(&mut d, 0, 1);
    put_u32(&mut d, 4, 4); // two members at most
    put_u32(&mut d, 0x10, 0);
    put_u16(&mut d, 0x20, 7);
    put_u16(&mut d, 0x22, 8);
    put_u16(&mut d, 0x24, 9);
    assert_eq!(parse_groups(&d, 0), Some(vec![vec![7, 8]]));
    // a negative pointer gives an empty group; no groups at all for a zero count
    put_u32(&mut d, 0x10, 0xFFFF_FFFF);
    assert_eq!(parse_groups(&d, 0), Some(vec![vec![]]));
    put_u32(&mut d, 0, 0);
    assert_eq!(parse_groups(&d, 0), Some(vec![]));
}

#[test]
fn help_messages_read_strings() {
    let mut d = vec![0u8; 0x40];
    put_u32(&mut d, 0, 1);
    put_u32(&mut d, 8, 0x18); // string at 8 + 0x18 = 0x20
    put_u16(&mut d, 12, 42);
    put_u16(&mut d, 14, 0xFFFF);
    d[0x20..0x25].copy_from_slice(b"Hi!\0x");
    let h = parse_help_messages(&d, 0).unwrap();
    assert_eq!(h.count, 1);
    assert_eq!(h.entries.len(), 1);
    assert_eq!(h.entries[0].ids, vec![42, -1, 0, 0, 0, 0]);
    assert_eq!(h.entries[0].text, b"Hi!".to_vec());
    // a string past the end is refused
    put_u32(&mut d, 8, 0x100);
    assert!(parse_help_messages(&d, 0).is_none());
}

#[test]
fn block_sizes_follow_pointer_order() {
    let ptrs = [0x100, 0x400, 0x200, 0];
    assert_eq!(block_size(&ptrs, 0, 0x1000), 0x100);
    assert_eq!(block_size(&ptrs, 1, 0x1000), 0xC00);
    assert_eq!(block_size(&ptrs, 1, 0x300), 0);
}
