use rac_tools::shrub::{extract_shrub_mesh, parse_shrub_class, read_vif_unpacks, texture_sizes};

fn put_u32(buf: &mut [u8], off: usize, v: u32) {
    buf[off..off + 4].copy_from_slice(&v.to_le_bytes());
}

fn put_i16(buf: &mut [u8], off: usize, v: i16) {
    buf[off..off + 2].copy_from_slice(&v.to_le_bytes());
}

/// A class with one packet: four positions and four attributes.
fn class(page_field: u16) -> Vec<u8> {
    let mut d = vec![0u8; 0xD8];
    put_u32(&mut d, 0x10, 0x3F80_0000);
    put_u32(&mut d, 0x28, 1);
    put_u32(&mut d, 0x40, 0x10);
    put_u32(&mut d, 0x44, 0x88);
    put_u32(&mut d, 0x90, 0x6D04_0000);
    for k in 0..4usize {
        let o = 0x94 + 8 * k;
        put_i16(&mut d, o, 10 * k as i16 + 1);
        put_i16(&mut d, o + 2, 10 * k as i16 + 2);
        put_i16(&mut d, o + 4, 10 * k as i16 + 3);
    }
    put_u32(&mut d, 0xB4, 0x6D04_0000);
    for k in 0..4usize {
        let o = 0xB8 + 8 * k;
        put_i16(&mut d, o, 100 + k as i16);
        put_i16(&mut d, o + 2, 200 + k as i16);
        d[o + 6..o + 8].copy_from_slice(&page_field.to_le_bytes());
    }
    d
}

#[test]
fn shrub_class_header() {
    let d = class(5);
    let info = parse_shrub_class(&d, 0, 42).unwrap();
    assert_eq!((info.o_class, info.packet_count, info.scale_bits), (42, 1, 0x3F80_0000));
    assert_eq!(info.packets.len(), 1);
    assert_eq!((info.packets[0].rel_offset, info.packets[0].size, info.packets[0].abs_offset), (0x10, 0x88, 0x50));
    let mut none = d.clone();
    put_u32(&mut none, 0x28, 0);
    assert!(parse_shrub_class(&none, 0, 42).is_none());
    assert!(parse_shrub_class(&d[..0x47], 0, 42).is_none());
}

#[test]
fn shrub_quads_grouped_by_page() {
    let d = class(0x8005);
    let info = parse_shrub_class(&d, 0, 1).unwrap();
    let groups = extract_shrub_mesh(&d, &info, &[5]);
    assert_eq!(groups.len(), 1);
    let (page, quads) = &groups[0];
    assert_eq!(*page, 5);
    assert_eq!(quads.len(), 1);
    assert_eq!(quads[0].pos, [[1, 2, 3], [11, 12, 13], [31, 32, 33], [21, 22, 23]]);
    assert_eq!(quads[0].st, [[100, 200], [101, 201], [102, 202], [103, 203]]);
    // a page the texture table does not have reads as page 0
    let groups = extract_shrub_mesh(&d, &info, &[7]);
    assert_eq!(groups[0].0, 0);
}

#[test]
fn shrub_unpack_list() {
    let d = class(0);
    let us = read_vif_unpacks(&d, 0x90, 0x48);
    assert_eq!(us.len(), 2);
    assert_eq!((us[0].vnvl_raw, us[0].num, us[0].data.len()), (13, 4, 32));
    assert_eq!(us[1].data[0..2], [100, 0]);
    // a window cut short keeps what lies in it
    let us = read_vif_unpacks(&d, 0x90, 0x20);
    assert_eq!(us.len(), 1);
    assert_eq!(us[0].data.len(), 0x1C);
}

#[test]
fn texture_size_table() {
    let mut idx = vec![0u8; 0x40];
    idx[0x14..0x16].copy_from_slice(&16u16.to_le_bytes());
    idx[0x16..0x18].copy_from_slice(&32u16.to_le_bytes());
    idx[0x34..0x36].copy_from_slice(&2000u16.to_le_bytes());
    idx[0x36..0x38].copy_from_slice(&8u16.to_le_bytes());
    assert_eq!(texture_sizes(&idx, 0x10, 5), vec![(0, 16, 32)]);
    assert!(texture_sizes(&idx, 0, 5).is_empty());
    assert!(texture_sizes(&idx, 0x10, 0).is_empty());
}
