use rac_tools::tfrag::{
    flatten_indices, read_tfrag_header, read_tfrag_mesh, read_vif_command_list, recover_faces,
    unpack_element_size,
};

fn put_u32(buf: &mut [u8], off: usize, v: u32) {
    buf[off..off + 4].copy_from_slice(&v.to_le_bytes());
}

fn put_i16(buf: &mut [u8], off: usize, v: i16) {
    buf[off..off + 2].copy_from_slice(&v.to_le_bytes());
}

/// One fragment: header at 0, data at 0x40 (common section with two STROWs
/// and three UNPACKs, LOD 1 section with strips and indices), one texture.
fn fragment() -> Vec<u8> {
    let mut d = vec![0u8; 0x114];
    put_u32(&mut d, 0x10, 0x40);
    put_u32(&mut d, 0x14, 0);
    put_u32(&mut d, 0x18, 0x00C4_0084);
    put_u32(&mut d, 0x1c, 0x0000_00C4);
    d[0x28] = 1;
    // common section at 0x40
    put_u32(&mut d, 0x40, 0x3000_0000);
    put_u32(&mut d, 0x54, 0x3000_0000);
    put_u32(&mut d, 0x58, 100);
    put_u32(&mut d, 0x5c, 200);
    put_u32(&mut d, 0x60, 300);
    put_u32(&mut d, 0x68, 0x6C01_0000);
    put_u32(&mut d, 0x7C, 0x6D03_0000);
    for k in 0..3usize {
        let o = 0x80 + 8 * k;
        put_i16(&mut d, o, 0x100 * (k as i16 + 1));
        put_i16(&mut d, o + 2, -0x10 * (k as i16 + 1));
        put_i16(&mut d, o + 6, 2 * k as i16);
    }
    put_u32(&mut d, 0xA0, 0x6903_0000);
    for k in 0..9usize {
        put_i16(&mut d, 0xA4 + 2 * k, k as i16 + 1);
    }
    // LOD 1 section at 0xC4: strips, then indices
    put_u32(&mut d, 0xC4, 0x6E01_0000);
    d[0xC8..0xCC].copy_from_slice(&[3, 0, 0, 0]);
    put_u32(&mut d, 0xD8, 0x6E01_0000);
    d[0xDC..0xE0].copy_from_slice(&[0, 1, 2, 0]);
    // texture entry at 0x104
    put_u32(&mut d, 0x10C, 7);
    d
}

#[test]
fn tfrag_header_fields() {
    let d = fragment();
    let h = read_tfrag_header(&d, 0).unwrap();
    assert_eq!(h.data, 0x40);
    assert_eq!((h.lod_2_ofs, h.shared_ofs, h.lod_1_ofs, h.lod_0_ofs), (0, 0, 0x84, 0xC4));
    assert_eq!((h.tex_ofs, h.rgba_ofs, h.texture_count), (0xC4, 0, 1));
    assert!(read_tfrag_header(&d, d.len() - 0x3F).is_none());
}

#[test]
fn tfrag_mesh_from_sections() {
    let d = fragment();
    let h = read_tfrag_header(&d, 0).unwrap();
    for lod in [0u32, 1, 2] {
        let m = read_tfrag_mesh(&d, 0, &h, lod).expect("mesh");
        assert_eq!(m.base_position, Some([100, 200, 300, 0]));
        assert_eq!(m.vertices.len(), 3);
        assert_eq!(m.vertices[0].pos, [1, 2, 3]);
        assert_eq!(m.vertices[2].pos, [7, 8, 9]);
        assert_eq!((m.vertices[1].s, m.vertices[1].t), (0x200, (-0x20i16) as u16));
        assert_eq!(m.triangles, vec![(0, 1, 2, -1)]);
        assert_eq!(m.tex_ofs_indices, vec![7]);
    }
    // data offset past the data
    assert!(read_tfrag_mesh(&d, 0x200, &h, 0).is_none());
}

#[test]
fn faces_from_strips() {
    let strips = [[0xFE, 0, 10, 0], [4, 0, 0, 0], [3, 0, 0, 0], [0, 0, 0, 0], [3, 0, 0, 0]];
    let indices = [10, 11, 12, 13, 20, 21, 22];
    let faces = recover_faces(&strips, &indices);
    assert_eq!(faces, vec![(2, [12, 13, 11, 10]), (2, [20, 21, 22, -1])]);
    // indices past the end read as -1
    let faces = recover_faces(&[[3, 0, 0, 0]], &[5, 6]);
    assert_eq!(faces, vec![(-1, [5, 6, -1, -1])]);
    assert_eq!(flatten_indices(&[[1, 2, 3, 4], [5, 6, 7, 8]]), vec![1, 2, 3, 4, 5, 6, 7, 8]);
}

#[test]
fn tfrag_command_sizes() {
    assert_eq!(unpack_element_size(0b1110), 4);
    assert_eq!(unpack_element_size(0b1101), 8);
    assert_eq!(unpack_element_size(0b1001), 6);
    assert_eq!(unpack_element_size(0b1111), 3);
    let mut d = vec![0u8; 0x40];
    put_u32(&mut d, 0, 0x4A02_0000); // 4 + 2 * 8 bytes
    put_u32(&mut d, 20, 0x2000_0000); // STMASK: 8 bytes
    put_u32(&mut d, 28, 0x6E02_0000); // UNPACK V4_8 of 2: one quadword
    d[32..40].copy_from_slice(&[1, 2, 3, 4, 5, 6, 7, 8]);
    let cmds = read_vif_command_list(&d, 0, 0x40);
    assert_eq!(cmds.len(), 7);
    assert_eq!((cmds[0].cmd, cmds[0].num, cmds[0].offset_in_chain), (0x4A, 2, 0));
    assert_eq!((cmds[1].cmd, cmds[1].offset_in_chain), (0x20, 20));
    let u = cmds[2].unpack.as_ref().unwrap();
    assert_eq!((u.vnvl_raw, u.qwc), (14, 1));
    assert_eq!(&u.data[..8], &[1, 2, 3, 4, 5, 6, 7, 8]);
    // zero words after it: commands with count 256
    assert_eq!(cmds[3].num, 256);
}
