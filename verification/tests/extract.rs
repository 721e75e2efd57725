use rac_tools::audio::{audio_vag_files, AudioError};
use rac_tools::bonus::{
    bonus_sections, bonus_table_readable, credit_line, credit_texts, decode_bonus_image, demo_section_readable,
    extract_demo_images, parse_sec_range, split_nul_runs, BonusGroup, BonusImage, CreditLine, DemoImages,
};
use rac_tools::collision::{level_collision, read_collision_mesh, read_hero_collision_groups, CollisionError};
use rac_tools::global_wad::{
    analyze_wad_blocks, classify_block, classify_summary, find_ps2d, header_sub_table, scan_wad_blocks,
    sort_by_count, sub_file_bytes, BlockFormat,
};
use rac_tools::level_texture::{decode_level_textures, gs_palette, TextureCategory};
use rac_tools::tie::{parse_tie_class, parse_tie_packet, tie_materials, tie_tex_slots};
use rac_tools::unpack::{gs_ram_groups, next_file_start, unpack_header_sections, SectionOutcome};
use rac_tools::wad::compress_wad_lz;

fn put_u32(b: &mut [u8], off: usize, v: u32) {
    b[off..off + 4].copy_from_slice(&v.to_le_bytes());
}

fn put_u16(b: &mut [u8], off: usize, v: u16) {
    b[off..off + 2].copy_from_slice(&v.to_le_bytes());
}

// ── level textures ──

#[test]
fn texture_category_names_round_trip() {
    for c in [
        TextureCategory::Tfrag,
        TextureCategory::Moby,
        TextureCategory::Tie,
        TextureCategory::Shrub,
        TextureCategory::Part,
        TextureCategory::Fx,
    ] {
        assert_eq!(TextureCategory::from_name(c.name()), Some(c));
    }
    assert_eq!(TextureCategory::from_name("sky"), None);
}

#[test]
fn gs_palette_swaps_bits_and_doubles_alpha() {
    let mut gs = vec![0u8; 1024];
    // Entry 8 (raw BGRA) becomes colour 16 after the swizzle.
    gs[8 * 4..8 * 4 + 4].copy_from_slice(&[1, 2, 3, 100]);
    gs[0..4].copy_from_slice(&[10, 20, 30, 0x80]);
    let p = gs_palette(&gs, 0);
    assert_eq!(p.len(), 256);
    assert_eq!(p[16], [3, 2, 1, 200]);
    assert_eq!(p[0], [30, 20, 10, 255]);
}

/// A core index with one tfrag texture (type 1) of 2x2 pixels.
fn texture_level() -> (Vec<u8>, Vec<u8>, Vec<u8>) {
    let mut index = vec![0u8; 0x100];
    put_u32(&mut index, 0x30, 1); // tfrag_textures count
    put_u32(&mut index, 0x34, 0xC0); // offset
    put_u32(&mut index, 0x60, 4); // textures_base_offset
    put_u32(&mut index, 0xC0, 2); // data_off
    put_u16(&mut index, 0xC4, 2); // w
    put_u16(&mut index, 0xC6, 2); // h
    put_u16(&mut index, 0xC8, 1); // type
    put_u16(&mut index, 0xCA, 4); // palette 4 -> 0x400
    let decomp: Vec<u8> = (0..16).collect();
    let gs = vec![7u8; 0x800];
    (index, decomp, gs)
}

#[test]
fn level_texture_pixels_from_core_data() {
    let (index, decomp, gs) = texture_level();
    let t = decode_level_textures(&index, &decomp, &gs, None);
    assert_eq!(t.len(), 1);
    assert_eq!(t[0].category, TextureCategory::Tfrag);
    assert_eq!((t[0].width, t[0].height, t[0].kind, t[0].pal), (2, 2, 1, 4));
    assert_eq!(t[0].pixels, vec![6, 7, 8, 9]);
    assert_eq!(t[0].palette[0], [7, 7, 7, 14]);
    // The filter leaves other categories out.
    assert!(decode_level_textures(&index, &decomp, &gs, Some(TextureCategory::Moby)).is_empty());
    // Without room for the palette the entry is skipped.
    assert!(decode_level_textures(&index, &decomp, &gs[..0x500], None).is_empty());
}

// ── bonus ──

#[test]
fn sec_range_is_in_bytes() {
    let mut d = vec![0u8; 8];
    put_u32(&mut d, 0, 3);
    put_u32(&mut d, 4, 2);
    assert_eq!(parse_sec_range(&d, 0), (0x1800, 0x1000));
}

#[test]
fn bonus_sections_in_header_order() {
    let mut d = vec![0u8; 0x1800];
    put_u32(&mut d, 0x5c0 + 8, 1); // credits text entry 1: sector 1, 1 sector
    put_u32(&mut d, 0x5c0 + 12, 1);
    put_u32(&mut d, 0xbe8, 2); // trophy: sector 2
    put_u32(&mut d, 0xbec, 1);
    d[0x800] = 0xAB;
    assert!(bonus_table_readable(&d));
    let s = bonus_sections(&d);
    assert_eq!(s.len(), 2);
    assert_eq!((s[0].group, s[0].index), (BonusGroup::CreditsText, 1));
    assert_eq!(s[0].bytes.len(), 0x800);
    assert_eq!(s[0].bytes[0], 0xAB);
    assert_eq!((s[1].group, s[1].index), (BonusGroup::TrophyImage, 0));
    put_u32(&mut d, 0xbe8, 5);
    assert!(!bonus_table_readable(&d));
}

#[test]
fn credit_strings_and_lines() {
    assert_eq!(split_nul_runs(b"ab\0\0cd\0ef"), vec![b"ab".to_vec(), b"cd".to_vec()]);
    let mut d = vec![0u8; 32];
    put_u32(&mut d, 0, 16);
    put_u32(&mut d, 4, 6);
    d[16..22].copy_from_slice(b"hi\0yo\0");
    let t = credit_texts(&d);
    assert_eq!(t.len(), 1);
    assert_eq!((t[0].offset, t[0].size), (16, 6));
    assert_eq!(t[0].strings, vec![b"hi".to_vec(), b"yo".to_vec()]);
    assert_eq!(credit_line(b"hi"), CreditLine::Text(b"hi".to_vec()));
    assert_eq!(credit_line(&[0xff, 0x41]), CreditLine::ByteList(vec![0xff, 0x41]));
    assert_eq!(credit_line("é".as_bytes()), CreditLine::Hidden);
}

#[test]
fn bonus_image_falls_back_to_bytes() {
    let mut d = vec![0u8; 8 + 4];
    put_u32(&mut d, 0, 1);
    put_u32(&mut d, 4, 1);
    d[8..12].copy_from_slice(&[1, 2, 3, 4]);
    assert_eq!(decode_bonus_image(&d, true, false), BonusImage::Png { width: 1, height: 1, rgba: vec![1, 2, 3, 4] });
    assert_eq!(decode_bonus_image(&d[..10], true, true), BonusImage::Bin(d[..10].to_vec()));
}

#[test]
fn demo_images_whole_or_listed() {
    let mut d = vec![0u8; 64];
    put_u32(&mut d, 0, 0);
    assert!(demo_section_readable(&d));
    assert_eq!(extract_demo_images(&d), DemoImages::Whole);
    put_u32(&mut d, 0, 2);
    put_u32(&mut d, 4, 16); // raw RGBA 1x1 at 16
    put_u32(&mut d, 8, 60); // only 4 bytes left: skipped
    put_u32(&mut d, 16, 1);
    put_u32(&mut d, 20, 1);
    d[24..28].copy_from_slice(&[9, 8, 7, 6]);
    match extract_demo_images(&d) {
        DemoImages::Images(v) => {
            assert_eq!(v.len(), 1);
            assert_eq!(v[0].0, 0);
            assert_eq!(v[0].1, BonusImage::Png { width: 1, height: 1, rgba: vec![9, 8, 7, 6] });
        }
        DemoImages::Whole => panic!("expected images"),
    }
}

// ── global WADs ──

#[test]
fn classify_formats() {
    assert_eq!(classify_block(b"ab"), BlockFormat::Empty);
    assert_eq!(classify_block(&[0xd8, 0x09, 0, 0]), BlockFormat::SpaceMesh);
    assert_eq!(classify_block(b"SBlk...."), BlockFormat::Sblk);
    assert_eq!(classify_block(b"2FIP...."), BlockFormat::Pif8Texture);
    assert_eq!(classify_block(b"Hello, world\n"), BlockFormat::Text);
    assert_eq!(classify_block(b"1234 5678"), BlockFormat::Data);
    assert_eq!(BlockFormat::MpegAudio.name(), "MPEG_AUDIO");
}

#[test]
fn wad_blocks_found_and_decompressed() {
    let payload = vec![0x41u8; 40];
    let block = compress_wad_lz(&payload);
    let mut raw = vec![0u8; 8];
    raw.extend_from_slice(&block);
    raw.extend_from_slice(&[0u8; 32]);
    let found = scan_wad_blocks(&raw);
    assert_eq!(found, vec![(8, block.len() as u64)]);
    let reports = analyze_wad_blocks(&raw);
    assert_eq!(reports.len(), 1);
    match &reports[0].result {
        Ok((f, d)) => {
            assert_eq!(d, &payload);
            assert_eq!(*f, BlockFormat::Text);
        }
        Err(e) => panic!("{:?}", e),
    }
    let summary = sort_by_count(classify_summary(&reports));
    assert_eq!(summary.len(), 1);
    assert_eq!((summary[0].format, summary[0].count), (Some(BlockFormat::Text), 1));
    assert_eq!(summary[0].decompressed, 40);
}

#[test]
fn header_sub_table_lists_nonzero_sectors() {
    let mut raw = vec![0u8; 12 + 8 * 3];
    put_u32(&mut raw, 0, 12);
    put_u32(&mut raw, 12 + 8, 5);
    put_u32(&mut raw, 12 + 12, 7);
    let (v, stop) = header_sub_table(&raw);
    assert_eq!(v, vec![(1, 5, 7)]);
    assert_eq!(stop, None);
    put_u32(&mut raw, 0, 8);
    assert_eq!(header_sub_table(&raw), (vec![], None));
}

#[test]
fn misc_helpers() {
    let raw: Vec<u8> = (0..0x1000u32).map(|x| x as u8).collect();
    assert_eq!(sub_file_bytes(&raw, 1, 5).len(), 0x800);
    assert_eq!(find_ps2d(b"xxPS2Dyy"), Some(2));
    assert_eq!(find_ps2d(b"PS2"), None);
}

// ── unpack ──

#[test]
fn header_sections_of_a_level_wad() {
    let mut raw = vec![0u8; 0x1800];
    put_u32(&mut raw, 0x20, 1); // gameplay: sector 1, 1 sector
    put_u32(&mut raw, 0x24, 1);
    put_u32(&mut raw, 0x28, 9); // occlusion: past the end
    put_u32(&mut raw, 0x2c, 1);
    raw[0x800] = 5;
    let s = unpack_header_sections(&raw);
    assert_eq!(s.len(), 3);
    assert_eq!(s[0].0, "gameplay");
    match &s[0].1 {
        SectionOutcome::Raw(b) => assert_eq!((b.len(), b[0]), (0x800, 5)),
        other => panic!("{:?}", other),
    }
    assert_eq!(s[1].1, SectionOutcome::Skipped);
    assert_eq!(s[2].1, SectionOutcome::OutOfBounds);
}

#[test]
fn next_start_and_gs_groups() {
    assert_eq!(next_file_start(&vec![100, 40, 70], 40, 500), 70);
    assert_eq!(next_file_start(&vec![10], 40, 500), 500);
    let core: Vec<u8> = (0..200u32).map(|x| x as u8).collect();
    let g = gs_ram_groups(&core, 8, 16);
    assert_eq!(g.len(), 3);
    assert_eq!(g[1][0], 72);
}

// ── collision ──

fn collision_data() -> Vec<u8> {
    let mut d = vec![0u8; 0x40];
    put_u16(&mut d, 2, 1); // one Z level
    put_u16(&mut d, 4, 2); // at 8
    put_u16(&mut d, 8, 3); // y base 3
    put_u16(&mut d, 10, 1); // one row
    put_u32(&mut d, 12, 0x10); // row at 0x10
    put_u16(&mut d, 0x10, 0xFFFF); // x base -1
    put_u16(&mut d, 0x12, 1);
    put_u32(&mut d, 0x14, 0x18 << 8); // octant at 0x18
    put_u16(&mut d, 0x18, 1); // one face
    d[0x1A] = 1; // one vertex
    d[0x1B] = 1; // one quad
    put_u32(&mut d, 0x1C, (2 << 20) | (0x3FF << 10) | 5); // z 2, y -1, x 5
    d[0x20..0x24].copy_from_slice(&[0, 0, 0, 7]);
    d[0x24] = 0;
    d
}

#[test]
fn collision_octree_read() {
    let d = collision_data();
    let m = read_collision_mesh(&d).expect("readable");
    assert_eq!(m.levels.len(), 1);
    assert_eq!(m.levels[0].coord, 3);
    let row = &m.levels[0].rows[0];
    assert_eq!(row.coord, -1);
    let o = &row.octants[0];
    assert_eq!(o.vertices, vec![(5, -1, 2)]);
    assert_eq!(o.faces.len(), 1);
    assert!(o.faces[0].is_quad);
    assert_eq!(o.faces[0].material, 7);
    assert!(read_collision_mesh(&d[..3]).is_none());
}

#[test]
fn collision_quads_past_faces_are_refused() {
    let mut d = collision_data();
    d.truncate(0x21); // the face is cut off, a quad byte would be read
    assert!(read_collision_mesh(&d).is_none());
}

#[test]
fn hero_groups_read() {
    let mut d = vec![0u8; 0x40];
    put_u32(&mut d, 0, 1);
    put_u16(&mut d, 0x18, 1); // triangles
    put_u16(&mut d, 0x1A, 1); // vertices
    put_u32(&mut d, 0x1C, 0x20);
    put_u16(&mut d, 0x20, 64);
    put_u16(&mut d, 0x22, 128);
    d[0x28..0x2B].copy_from_slice(&[0, 1, 2]);
    let g = read_hero_collision_groups(&d);
    assert_eq!(g.len(), 1);
    assert_eq!(g[0].vertices, vec![(64, 128, 0)]);
    assert_eq!(g[0].triangles, vec![(0, 1, 2)]);
}

#[test]
fn level_collision_errors() {
    let ci = vec![0u8; 0x18];
    assert!(matches!(level_collision(&ci, &[0u8; 64]), Err(CollisionError::NoCollisionData)));
    let mut ci = vec![0u8; 0x18];
    put_u32(&mut ci, 0x14, 8);
    let core = vec![0u8; 64];
    assert!(matches!(level_collision(&ci, &core), Err(CollisionError::InvalidMeshOffset)));
}

// ── audio ──

#[test]
fn audio_vag_files_named() {
    let mut a = vec![0u8; 0x1000];
    put_u32(&mut a, 0, 24); // two entries
    put_u32(&mut a, 8, 1);
    put_u32(&mut a, 12, 0x30);
    put_u32(&mut a, 16, 0); // empty entry
    a[0x800..0x804].copy_from_slice(b"VAGp");
    a[0x81C..0x821].copy_from_slice(b"music");
    let v = audio_vag_files(&a).expect("header");
    assert_eq!(v.len(), 1);
    assert_eq!(v[0].index, 0);
    assert_eq!(v[0].data.len(), 0x30);
    assert_eq!(v[0].name, b"music".to_vec());
    assert!(matches!(audio_vag_files(&a[..4]), Err(AudioError::TooShort)));
    put_u32(&mut a, 0, 4);
    assert!(matches!(audio_vag_files(&a), Err(AudioError::InvalidHeaderSize(4))));
}

// ── tie ──

/// A tie class at 0: one LOD 0 packet at 0x80 whose data starts at 0x90
/// with one strip of three vertices (slot 0).
fn tie_class() -> Vec<u8> {
    let mut d = vec![0u8; 0x200];
    put_u32(&mut d, 0, 0x80); // LOD 0 packet table
    d[12] = 1; // one packet
    put_u32(&mut d, 0x80, 0x10); // packet data at 0x90
    let pkt = 0x90;
    d[pkt + 0x23] = 1; // one strip
    d[pkt + 0x2c] = 3; // three vertices
    d[pkt + 0x2e] = 3; // GIF tag at qword 3: vertices from qword 4
    for n in 0..3usize {
        let v = pkt + (4 + 3 * n) * 16;
        put_u16(&mut d, v, 10 * n as u16 + 1);
        put_u16(&mut d, v + 16, 16);
    }
    d
}

#[test]
fn tie_strips_and_materials() {
    let d = tie_class();
    let strips = parse_tie_packet(&d, 0x90, &vec![4]);
    assert_eq!(strips.len(), 1);
    assert_eq!(strips[0].vertices.len(), 3);
    assert_eq!(strips[0].vertices[1].x, 11);
    assert_eq!(strips[0].tex, 4);
    let c = parse_tie_class(&d, 0, &[]).expect("class");
    assert_eq!(c.strips.len(), 1);
    assert_eq!(c.strips[0].tex, 0xFF);
    let m = tie_materials(&c.strips);
    assert_eq!(m.len(), 1);
    assert_eq!(m[0].tex, 0xFF);
    assert_eq!(m[0].triangles, vec![(2, 1, 0)]);
    assert_eq!(tie_tex_slots(&[1, 0xFF, 2]), vec![1, 2]);
}

#[test]
fn tie_materials_in_name_order() {
    let d = tie_class();
    let mut c = parse_tie_class(&d, 0, &[10]).expect("class");
    let mut c2 = parse_tie_class(&d, 0, &[9]).expect("class");
    c.strips.append(&mut c2.strips);
    let m = tie_materials(&c.strips);
    // "tie_tex_10" sorts before "tie_tex_9" as text.
    assert_eq!(m.iter().map(|x| x.tex).collect::<Vec<u8>>(), vec![10, 9]);
}
