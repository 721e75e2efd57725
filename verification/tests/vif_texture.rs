use rac_tools::common::{dispatch_levels, level_dir_name, parse_sector_range, r_s16, r_s32, r_u16, r_u32};
use rac_tools::texture::{
    decode_pal4, decode_pal8, decode_pif8, decode_raw_rgba, map_palette_index, map_pixel_index_rac4,
    multiply_alphas, read_gs_ram_entry, read_texture_entry, unswizzle_palette, unswizzle_pif8,
};
use rac_tools::types::{VifCmd, VifCommand};
use rac_tools::vif::{
    filter_vif_unpacks, read_unpack_v2_16, read_unpack_v3_16, read_unpack_v4_16, read_unpack_v4_8,
    read_vif_code, read_vif_command_list, to_s8, unpack_element_size, unpack_qword_count,
};

#[test]
fn vif_command_bytes_round_trip() {
    for b in 0u16..256 {
        let b = b as u8;
        if let Some(c) = VifCmd::from_u8(b) {
            assert_eq!(c.code(), b);
        }
    }
    assert_eq!(VifCmd::from_u8(0x6C), Some(VifCmd::UnpackV4_8));
    assert_eq!(VifCmd::from_u8(0x10), None);
    assert!(VifCmd::UnpackV2_16.is_unpack());
    assert!(!VifCmd::MscCal.is_unpack());
}

#[test]
fn vif_code_fields() {
    let (cmd, imm, qwc) = read_vif_code(0x1234_056C);
    assert_eq!(cmd, VifCmd::UnpackV4_8);
    assert_eq!(imm, 0x1234);
    assert_eq!(qwc, 0x05);
    // Unknown command bytes read as NOP
    let (cmd, _, _) = read_vif_code(0x0000_0042);
    assert_eq!(cmd, VifCmd::Nop);
}

#[test]
fn unpack_sizes() {
    assert_eq!(unpack_element_size(0x00), 4);
    assert_eq!(unpack_element_size(0x20), 2);
    assert_eq!(unpack_element_size(0x40), 1);
    assert_eq!(unpack_element_size(0xB0), 2);
    assert_eq!(unpack_element_size(0x70), 4);
    assert_eq!(unpack_qword_count(0x90, 5), 2);
    assert_eq!(unpack_qword_count(0x00, 8), 2);
    assert_eq!(to_s8(0xFF), -1);
    assert_eq!(to_s8(0x7F), 127);
}

fn word(v: u32) -> [u8; 4] {
    v.to_le_bytes()
}

#[test]
fn command_list_skips_unpack_data_and_stops_at_direct() {
    let mut data = Vec::new();
    data.extend_from_slice(&word(0x0000_0000)); // NOP, skipped
    data.extend_from_slice(&word(0x0003_016C)); // UNPACK V4_8, 1 qword
    data.extend_from_slice(&[9u8; 16]);
    data.extend_from_slice(&word(0x0000_0051)); // FLUSHA, skipped
    data.extend_from_slice(&word(0x0007_0001)); // STCYCL imm 7
    data.extend_from_slice(&word(0x0000_0060)); // DIRECT: stop
    data.extend_from_slice(&word(0x0000_0001));
    let cmds = read_vif_command_list(&data, 0, data.len());
    assert_eq!(cmds.len(), 2);
    assert_eq!(cmds[0], VifCommand { cmd: VifCmd::UnpackV4_8, imm: 3, qword_count: 1 });
    assert_eq!(cmds[1], VifCommand { cmd: VifCmd::Stcycl, imm: 7, qword_count: 0 });
    let unpacks = filter_vif_unpacks(&cmds);
    assert_eq!(unpacks.len(), 1);
    assert_eq!(*unpacks[0], cmds[0]);
    // A window that ends before the STCYCL sees only the UNPACK
    let cmds = read_vif_command_list(&data, 0, 24);
    assert_eq!(cmds.len(), 1);
}

#[test]
fn unpack_readers() {
    let mut data = vec![0u8; 4];
    for k in 0..16u8 {
        data.push(k);
    }
    let cmd = VifCommand { cmd: VifCmd::UnpackV4_8, imm: 0, qword_count: 1 };
    let v48 = read_unpack_v4_8(&data, &cmd);
    assert_eq!(v48, vec![[0, 1, 2, 3], [4, 5, 6, 7], [8, 9, 10, 11], [12, 13, 14, 15]]);
    let v416 = read_unpack_v4_16(&data, &cmd);
    assert_eq!(v416, vec![[0x0100, 0x0302, 0x0504, 0x0706], [0x0908, 0x0B0A, 0x0D0C, 0x0F0E]]);
    let v316 = read_unpack_v3_16(&data, &cmd);
    assert_eq!(v316, vec![[0x0100, 0x0302, 0x0504, 0], [0x0908, 0x0B0A, 0x0D0C, 0]]);
    let v216 = read_unpack_v2_16(&data, &cmd);
    assert_eq!(v216, vec![[0x0100, 0x0302], [0x0908, 0x0B0A]]);
    // Elements past the end are left out
    let short = &data[..10];
    assert_eq!(read_unpack_v4_8(short, &cmd), vec![[0, 1, 2, 3]]);
}

#[test]
fn little_endian_readers() {
    let data = [0x78, 0x56, 0x34, 0x12, 0xFE, 0xFF];
    assert_eq!(r_u32(&data, 0), 0x1234_5678);
    assert_eq!(r_s32(&[0xFF, 0xFF, 0xFF, 0xFF], 0), -1);
    assert_eq!(r_u16(&data, 4), 0xFFFE);
    assert_eq!(r_s16(&data, 4), -2);
    let mut sec = vec![0u8; 8];
    sec[0..4].copy_from_slice(&3u32.to_le_bytes());
    sec[4..8].copy_from_slice(&7u32.to_le_bytes());
    assert_eq!(parse_sector_range(&sec, 0), (3, 7));
}

#[test]
fn level_dispatch_and_names() {
    assert_eq!(dispatch_levels(5), vec![5]);
    let all = dispatch_levels(-1);
    assert_eq!(all.len(), 14);
    assert_eq!(all[0], 0);
    assert_eq!(all[13], 13);
    assert_eq!(level_dir_name(7), "LEVEL007");
    assert_eq!(level_dir_name(123), "LEVEL123");
}

#[test]
fn palette_swap_exchanges_bits_3_and_4() {
    assert_eq!(map_palette_index(0x08), 0x10);
    assert_eq!(map_palette_index(0x10), 0x08);
    assert_eq!(map_palette_index(0x18), 0x18);
    assert_eq!(map_palette_index(0x07), 0x07);
    for i in 0..256u32 {
        assert_eq!(map_palette_index(map_palette_index(i)), i);
    }
}

#[test]
fn rac4_pixel_map() {
    assert_eq!(map_pixel_index_rac4(0, 16), 0);
    assert_eq!(map_pixel_index_rac4(1, 16), 36);
    assert_eq!(map_pixel_index_rac4(4, 16), 1);
    // The map over one 16x16 block is a permutation
    let mut seen = vec![false; 256];
    for i in 0..256u32 {
        let m = map_pixel_index_rac4(i, 16) as usize;
        assert!(m < 256);
        assert!(!seen[m]);
        seen[m] = true;
    }
}

#[test]
fn palette_unswizzle_and_alpha() {
    let mut raw = vec![0u8; 1024];
    for i in 0..256usize {
        raw[i * 4] = i as u8;
        raw[i * 4 + 3] = 0x80;
    }
    let pal = unswizzle_palette(&raw);
    assert_eq!(pal.len(), 256);
    assert_eq!(pal[0x10], [0x08, 0, 0, 0x80]);
    assert_eq!(pal[0x08], [0x10, 0, 0, 0x80]);
    // A short palette leaves the missing entries black
    let pal = unswizzle_palette(&raw[..8]);
    assert_eq!(pal[1], [1, 0, 0, 0x80]);
    assert_eq!(pal[2], [0, 0, 0, 0]);
    let mut cols = vec![[1u8, 2, 3, 0x40], [4, 5, 6, 0x80], [7, 8, 9, 0xFF]];
    multiply_alphas(&mut cols);
    assert_eq!(cols, vec![[1, 2, 3, 0x80], [4, 5, 6, 0xFF], [7, 8, 9, 0xFF]]);
}

#[test]
fn palettised_decoders() {
    let pal = vec![[0u8, 0, 0, 0], [10, 20, 30, 40], [50, 60, 70, 80]];
    let out = decode_pal8(&[1, 2, 7], 2, 2, &pal);
    assert_eq!(out, vec![[10, 20, 30, 40], [50, 60, 70, 80], [0, 0, 0, 0], [0, 0, 0, 0]]);
    // Low nibble first
    let out = decode_pal4(&[0x21], 2, 1, &pal);
    assert_eq!(out, vec![[10, 20, 30, 40], [50, 60, 70, 80]]);
    let px: Vec<u8> = (0..=255).collect();
    let lin = unswizzle_pif8(&px, 16, 16);
    assert_eq!(lin[0], 0);
    assert_eq!(lin[1], 36);
}

#[test]
fn texture_table_entries() {
    let mut d = vec![0u8; 16];
    d[0..4].copy_from_slice(&0x100u32.to_le_bytes());
    d[4..8].copy_from_slice(&4u32.to_le_bytes());
    d[8..12].copy_from_slice(&(0x14u32 | (7 << 26) | (2 << 30)).to_le_bytes());
    assert_eq!(read_texture_entry(&d, 0), (0x100, 4, 0x14, 7, 2, 0, 0, 0));
    let mut g = vec![0u8; 12];
    g[0..4].copy_from_slice(&8u32.to_le_bytes());
    g[4..8].copy_from_slice(&4u32.to_le_bytes());
    g[8..12].copy_from_slice(&[1, 2, 3, 4]);
    assert_eq!(read_gs_ram_entry(&g, 0), &[1, 2, 3, 4]);
    g[4..8].copy_from_slice(&5u32.to_le_bytes());
    assert!(read_gs_ram_entry(&g, 0).is_empty());
}

#[test]
fn pif8_and_raw_rgba_decoding() {
    let (w, h) = (2u32, 2u32);
    let mut f = Vec::new();
    f.extend_from_slice(b"2FIP");
    f.extend_from_slice(&0u32.to_le_bytes());
    f.extend_from_slice(&w.to_le_bytes());
    f.extend_from_slice(&h.to_le_bytes());
    f.extend_from_slice(&[0u8; 16]);
    let mut pal = vec![0u8; 1024];
    // Palette slot 0x10 is stored at raw position 0x08
    pal[0x08 * 4..0x08 * 4 + 4].copy_from_slice(&[200, 100, 50, 0x40]);
    pal[4..8].copy_from_slice(&[1, 2, 3, 0x80]);
    f.extend_from_slice(&pal);
    f.extend_from_slice(&[0x10, 1, 0, 0x10]);
    let (dw, dh, rgba) = decode_pif8(&f).expect("decodes");
    assert_eq!((dw, dh), (2, 2));
    assert_eq!(&rgba[0..4], &[200, 100, 50, 0x80]);
    assert_eq!(&rgba[4..8], &[1, 2, 3, 0xFF]);
    assert_eq!(&rgba[8..12], &[0, 0, 0, 0]);
    // Bad magic, zero size and truncation are refused
    let mut bad = f.clone();
    bad[0] = b'X';
    assert!(decode_pif8(&bad).is_none());
    assert!(decode_pif8(&f[..0x10 + 1024 + 3]).is_none());
    let mut raw = Vec::new();
    raw.extend_from_slice(&1u32.to_le_bytes());
    raw.extend_from_slice(&1u32.to_le_bytes());
    raw.extend_from_slice(&[9, 8, 7, 6, 5]);
    assert_eq!(decode_raw_rgba(&raw), Some((1, 1, vec![9, 8, 7, 6])));
    assert_eq!(decode_raw_rgba(&raw[..11]), None);
}
