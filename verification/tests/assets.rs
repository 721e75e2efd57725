use rac_tools::gadget::{
    extract_and_decompress_header_block, extract_inline_data, extract_texture_block, get_entry,
    parse_gadget_header,
};
use rac_tools::gadget_texture::{analyze_sblk, decode_pal4, decode_pal8, detect_format, unpack_nibbles};
use rac_tools::hud::{hud_block_textures, parse_palette, read_2fip_header};
use rac_tools::level_core::{extract_class_entries_json, parse_level_core_header, CoreField};
use rac_tools::moby::{
    moby_packet_mesh, parse_moby_class_header, MobyVertex, PacketEntry, VertexTable,
};
use rac_tools::wad::compress_wad_lz;

fn put_u32(buf: &mut [u8], off: usize, v: u32) {
    buf[off..off + 4].copy_from_slice(&v.to_le_bytes());
}

fn get_i32(buf: &[u8], off: usize) -> i32 {
    i32::from_le_bytes([buf[off], buf[off + 1], buf[off + 2], buf[off + 3]])
}

// ── level core ──

fn core_words(len: usize) -> Vec<u8> {
    let mut d = vec![0u8; len];
    for i in 0..len / 4 {
        put_u32(&mut d, i * 4, (i + 1) as u32);
    }
    d
}

#[test]
fn core_header_fields_and_names() {
    let d = core_words(188);
    let fields = parse_level_core_header(&d);
    assert_eq!(fields.len(), 37);
    assert_eq!(fields[0], ("gs_ram", CoreField::Array { count: 1, offset: 2 }));
    assert_eq!(fields[1], ("tfrags", CoreField::Scalar(3)));
    assert_eq!(fields[5], ("moby_classes", CoreField::Array { count: 7, offset: 8 }));
    assert_eq!(fields[13], ("fx_textures", CoreField::Array { count: 23, offset: 24 }));
    assert_eq!(fields[14], ("textures_base_offset", CoreField::Scalar(25)));
    assert_eq!(fields[36], ("occlusion_rad2_offset", CoreField::Scalar(47)));
}

#[test]
fn core_header_stops_at_end_of_data() {
    let d = core_words(100);
    let fields = parse_level_core_header(&d);
    assert_eq!(fields.len(), 15);
    assert_eq!(fields[14].0, "textures_base_offset");
    assert!(parse_level_core_header(&[]).is_empty());
}

#[test]
fn class_tables() {
    let d: Vec<u8> = (0..0x70u32).map(|i| i as u8).collect();
    let entries = extract_class_entries_json(&d, 0x10, 5, 0x20);
    assert_eq!(entries.len(), 3);
    let e = &entries[1];
    assert_eq!(e.index, 1);
    assert_eq!(e.wad_off, get_i32(&d, 0x30));
    assert_eq!(e.o_class, get_i32(&d, 0x34));
    assert_eq!(e.u8_word, get_i32(&d, 0x38));
    assert_eq!(e.uc_word, get_i32(&d, 0x3C));
    assert_eq!(e.tex, d[0x40..0x50].to_vec());
    assert!(e.billboard.is_none());
    assert_eq!(extract_class_entries_json(&d, 0x10, 1, 0x20).len(), 1);
    assert_eq!(extract_class_entries_json(&d, 0x10, -1, 0x20).len(), 3);
    let shrubs = extract_class_entries_json(&d, 0x10, 9, 0x30);
    assert_eq!(shrubs.len(), 2);
    assert_eq!(shrubs[0].billboard, Some((0x3130, 0x3332)));
    assert!(extract_class_entries_json(&d, 0x10, 2, 0x24).is_empty());
    assert!(extract_class_entries_json(&d, 0x100, 2, 0x20).is_empty());
}

// ── gadget WAD ──

const SECTOR: usize = 0x800;

fn set_range(d: &mut [u8], g: usize, e: usize, sector: u32, size: u32) {
    let pos = 0x08 + g * 0x28 + e * 8;
    put_u32(d, pos, sector);
    put_u32(d, pos + 4, size);
}

fn texture_block() -> Vec<u8> {
    let mut tb = vec![0u8; SECTOR];
    put_u32(&mut tb, 0, 2); // count
    put_u32(&mut tb, 4, 5); // flags
    put_u32(&mut tb, 8, 8); // bpp
    put_u32(&mut tb, 12, 0x100);
    // first SBlk at 16: 0x40 bytes, pixels at 0x70
    put_u32(&mut tb, 16, 0x40);
    put_u32(&mut tb, 20, 0x70);
    tb[24..28].copy_from_slice(b"SBlk");
    put_u32(&mut tb, 32, 1);
    tb[36..40].copy_from_slice(b"ICON");
    tb[48..50].copy_from_slice(&16u16.to_le_bytes());
    tb[50..52].copy_from_slice(&8u16.to_le_bytes());
    // second SBlk at 0x50 with size 0 (taken as 0x10)
    tb[0x58..0x5C].copy_from_slice(b"SBlk");
    tb
}

fn gadget_wad() -> (Vec<u8>, Vec<u8>) {
    let mut d = vec![0u8; 4 * SECTOR];
    let payload: Vec<u8> = b"gadget header block: ".iter().cycle().take(300).copied().collect();
    set_range(&mut d, 0, 3, 1, 1);
    set_range(&mut d, 0, 4, 2, 1);
    set_range(&mut d, 1, 0, 3, 1);
    set_range(&mut d, 2, 0, 100, 1);
    set_range(&mut d, 3, 0, 3, 0);
    // header block: 16-byte prefix, then a compressed blob
    put_u32(&mut d, SECTOR, 0x11);
    put_u32(&mut d, SECTOR + 4, 0x22);
    put_u32(&mut d, SECTOR + 8, 0x33);
    put_u32(&mut d, SECTOR + 12, 0x44);
    let blob = compress_wad_lz(&payload);
    assert!(blob.len() <= SECTOR - 16 && blob[3] > 1);
    d[SECTOR + 16..SECTOR + 16 + blob.len()].copy_from_slice(&blob);
    let tb = texture_block();
    d[2 * SECTOR..3 * SECTOR].copy_from_slice(&tb);
    for k in 0..SECTOR {
        d[3 * SECTOR + k] = (k % 251) as u8;
    }
    (d, payload)
}

#[test]
fn gadget_table_and_ranges() {
    let (d, _) = gadget_wad();
    let groups = parse_gadget_header(&d);
    assert_eq!(groups.len(), 24);
    assert_eq!(groups[0][3], (1 << 16) | 1);
    assert_eq!(groups[0][4], (2 << 16) | 1);
    assert_eq!(groups[5][0], 0);
    let e = get_entry(&d, 0, 4);
    assert_eq!((e.sector, e.size_sectors, e.byte_offset, e.byte_size), (2, 1, 0x1000, 0x800));
    assert_eq!(extract_inline_data(&d, 1, 0), Some(d[3 * SECTOR..4 * SECTOR].to_vec()));
    assert_eq!(extract_inline_data(&d, 2, 0), None);
    assert_eq!(extract_inline_data(&d, 3, 0), None);
}

#[test]
fn gadget_header_block_decompresses() {
    let (d, payload) = gadget_wad();
    let (data, a, b, c, e) = extract_and_decompress_header_block(&d, 0).unwrap().unwrap();
    assert_eq!(data, payload);
    assert_eq!((a, b, c, e), (0x11, 0x22, 0x33, 0x44));
    // a group with no header block gives nothing
    assert!(matches!(extract_and_decompress_header_block(&d, 1), Ok(None)));
}

#[test]
fn gadget_texture_block_and_sblks() {
    let (d, _) = gadget_wad();
    let (raw, count, flags, bpp, size, textures) = extract_texture_block(&d, 0).unwrap();
    assert_eq!(raw, d[2 * SECTOR..3 * SECTOR].to_vec());
    assert_eq!((count, flags, bpp, size), (2, 5, 8, 0x100));
    assert_eq!(textures.len(), 2);
    assert_eq!(textures[0], raw[16..0x50].to_vec());
    assert_eq!(textures[1], raw[0x50..0x60].to_vec());
    assert!(extract_texture_block(&d, 1).is_none());

    let (c, f, b, ts) = analyze_sblk(&raw).unwrap();
    assert_eq!((c, f, b), (2, 5, 8));
    assert_eq!(ts.len(), 2);
    assert_eq!(ts[0].sub_count, 1);
    assert_eq!(ts[0].name, b"ICON".to_vec());
    assert_eq!((ts[0].width, ts[0].height), (16, 8));
    assert_eq!(ts[0].pixels, raw[0x70..].to_vec());
    assert!(analyze_sblk(&raw[..15]).is_none());
    // no SBlk magic: no textures
    let mut blank = raw.clone();
    blank[24] = b'X';
    assert!(analyze_sblk(&blank).is_none());
}

// ── gadget icon pixels ──

#[test]
fn nibbles_high_first() {
    assert_eq!(unpack_nibbles(&[0xAB, 0xCD], 3), vec![0xA, 0xB, 0xC]);
    assert_eq!(unpack_nibbles(&[0x12], 4), vec![1, 2, 0, 0]);
}

#[test]
fn format_detection() {
    // 4-bit: 8 index bytes and 16 colours
    let mut px: Vec<u8> = vec![0x01, 0x23, 0x45, 0x67, 0x89, 0xAB, 0xCD, 0xEF];
    px.extend_from_slice(&[0u8; 64]);
    assert_eq!(detect_format(&px, 4, 4), ("pal4", 16));
    // 8-bit: 16 index bytes up to 200 and 256 colours
    let mut px8: Vec<u8> = (0..16).map(|i| (i * 13) as u8).collect();
    px8.extend_from_slice(&[0u8; 1024]);
    assert_eq!(detect_format(&px8, 4, 4), ("pal8", 256));
    // neither reading fits
    assert_eq!(detect_format(&[0u8; 10], 4, 4), ("pal4", 0));
}

#[test]
fn pal8_and_pal4_decoding() {
    let mut px = vec![0x21u8; 256];
    let mut pal = vec![0u8; 64];
    pal[0..4].copy_from_slice(&[1, 2, 3, 0x40]);
    pal[32..36].copy_from_slice(&[9, 9, 9, 0x80]);
    px.extend_from_slice(&pal);
    let (idx, colours) = decode_pal8(&px, 16, 16, 16).unwrap();
    assert_eq!(idx.len(), 256);
    assert_eq!(idx[0], 1);
    assert_eq!(idx[4], 2);
    assert_eq!(colours.len(), 256);
    assert_eq!(colours[0], [1, 2, 3, 0x80]);
    assert_eq!(colours[0x10], [9, 9, 9, 0xFF]);
    assert_eq!(colours[0x08], [0, 0, 0, 0]);
    assert!(decode_pal8(&px[..300], 16, 16, 16).is_none());

    let mut px4 = vec![0x12u8; 128];
    px4.extend_from_slice(&pal);
    let (idx, colours) = decode_pal4(&px4, 16, 16, 16).unwrap();
    assert_eq!(idx[0], 1);
    assert_eq!(idx[4], 2);
    assert_eq!(colours[0], [1, 2, 3, 0x80]);
    // too few colours after the indices
    assert!(decode_pal4(&px4[..128 + 40], 16, 16, 16).is_none());
    // fewer colours than asked: those that are there
    let (_, colours) = decode_pal4(&px4[..128 + 64], 16, 16, 32).unwrap();
    assert_eq!(colours[0x10], [9, 9, 9, 0xFF]);
}

// ── HUD textures ──

fn fip(w: u32, h: u32, fill: u8) -> Vec<u8> {
    let mut f = vec![0u8; 0x20];
    f[0..4].copy_from_slice(b"2FIP");
    put_u32(&mut f, 8, w);
    put_u32(&mut f, 12, h);
    let mut pal = vec![0u8; 1024];
    pal[0x08 * 4..0x08 * 4 + 4].copy_from_slice(&[5, 6, 7, 0x40]);
    f.extend_from_slice(&pal);
    f.extend(std::iter::repeat(fill).take((w * h) as usize));
    f
}

#[test]
fn hud_2fip_and_palette() {
    let f = fip(2, 3, 7);
    let (w, h, pal, px) = read_2fip_header(&f).unwrap();
    assert_eq!((w, h), (2, 3));
    assert_eq!(pal, f[0x20..0x420].to_vec());
    assert_eq!(px, vec![7u8; 6]);
    assert!(read_2fip_header(&f[..f.len() - 1]).is_none());
    let colours = parse_palette(&pal);
    assert_eq!(colours.len(), 256);
    assert_eq!(colours[0x10], [5, 6, 7, 0x80]);
    assert_eq!(colours[0x08], [0, 0, 0, 0]);
}

#[test]
fn hud_blocks_and_font_atlas() {
    let f = fip(2, 2, 1);
    let single = hud_block_textures(5, &f);
    assert_eq!(single.len(), 1);
    assert_eq!(single[0].page, None);
    assert_eq!((single[0].width, single[0].height), (2, 2));
    assert!(hud_block_textures(5, &[0u8; 8]).is_empty());

    // font atlas: page table at 0x10, page 0 at 0x20, page 1 points at the
    // table itself (no 2FIP there), page 2 past the end
    let mut atlas = vec![0u8; 0x20];
    put_u32(&mut atlas, 0, 0x20);
    put_u32(&mut atlas, 0x10, 0x20);
    put_u32(&mut atlas, 0x14, 0);
    put_u32(&mut atlas, 0x18, 0x10000);
    atlas.extend_from_slice(&fip(4, 4, 3));
    let pages = hud_block_textures(226, &atlas);
    assert_eq!(pages.len(), 1);
    assert_eq!(pages[0].page, Some(0));
    assert_eq!(pages[0].pixels, vec![3u8; 16]);
    // the same block under another index is not an atlas
    assert!(hud_block_textures(7, &atlas).is_empty());
}

// ── moby ──

#[test]
fn moby_class_header() {
    let mut d = vec![0u8; 0x60];
    put_u32(&mut d, 0, 0x10); // packet table inside the header
    d[4] = 2;
    d[5] = 1;
    d[6] = 3;
    d[12] = 2; // two sequence offsets
    put_u32(&mut d, 0x48, 0x20); // not past the header
    put_u32(&mut d, 0x4C, 0x90);
    let info = parse_moby_class_header(&d, 0).unwrap();
    assert_eq!(info.packet_table_offset, 0x90);
    assert_eq!((info.high_lod_count, info.low_lod_count, info.metal_count), (2, 1, 3));
    assert_eq!(info.total_packets, 6);
    put_u32(&mut d, 0, 0x200);
    assert_eq!(parse_moby_class_header(&d, 0).unwrap().packet_table_offset, 0x200);
    put_u32(&mut d, 0, 0);
    assert!(parse_moby_class_header(&d, 0).is_none());
    assert!(parse_moby_class_header(&d, 0x20).is_none());
}

fn vertex(x: i16, vi: u32) -> MobyVertex {
    MobyVertex { low_halfword: 0, normal_az: 0, normal_el: 0, x, y: 0, z: 0, vertex_index: vi }
}

fn packet(index: Vec<u8>, metal: bool, verts: Vec<MobyVertex>, dups: Vec<u32>) -> PacketEntry {
    PacketEntry {
        vif_list_offset: 0,
        transfer_vertex_count: 0,
        is_metal: metal,
        st_data: Vec::new(),
        index_data: index,
        texture_data: Vec::new(),
        vertex_table: Some(VertexTable {
            vertices: verts,
            duplicate_vertices: dups,
            two_way_blend_count: 0,
            three_way_blend_count: 0,
            main_vertex_count: 0,
        }),
    }
}

fn four() -> Vec<MobyVertex> {
    vec![vertex(0, 1), vertex(10, 7), vertex(20, 3), vertex(30, 4)]
}

#[test]
fn moby_strip_without_indices() {
    let m = moby_packet_mesh(&packet(vec![0, 0], false, four(), vec![])).unwrap();
    assert_eq!(m.vertices.len(), 4);
    assert_eq!(m.triangles, vec![[0, 1, 2], [2, 1, 3]]);
    assert_eq!(m.materials, vec![0, 0]);
    // fewer than three local vertices: nothing to draw
    assert!(moby_packet_mesh(&packet(vec![], false, vec![vertex(0, 0)], vec![])).is_none());
    let mut none = packet(vec![], false, four(), vec![]);
    none.vertex_table = None;
    assert!(moby_packet_mesh(&none).is_none());
}

#[test]
fn moby_signed_and_metal_strips() {
    // 1-based indices; a single negative value restarts the strip
    let m = moby_packet_mesh(&packet(vec![1, 2, 3, 0xFF, 2, 3, 4], false, four(), vec![])).unwrap();
    assert_eq!(m.triangles, vec![[0, 1, 2], [1, 2, 3]]);
    // metal: 0-based, 0 restarts
    let m = moby_packet_mesh(&packet(vec![1, 2, 3, 0, 1, 2, 3], true, four(), vec![])).unwrap();
    assert_eq!(m.triangles, vec![[1, 2, 3], [1, 2, 3]]);
    // triangles with two corners at one place are dropped
    let mut same = four();
    same[2].x = 10;
    let m = moby_packet_mesh(&packet(vec![0, 0], false, same, vec![])).unwrap();
    assert!(m.triangles.is_empty());
}

#[test]
fn moby_duplicate_vertices() {
    let m = moby_packet_mesh(&packet(vec![0, 0], false, four(), vec![7 + 512, 99])).unwrap();
    assert_eq!(m.vertices.len(), 5);
    assert_eq!((m.vertices[4].source, m.vertices[4].uv), (1, 4));
}
