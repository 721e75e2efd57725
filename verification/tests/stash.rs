use rac_tools::stash::{detect_stash_entry_layout, parse_vif_chain, resolve_stash_entry, StashLayout, SENTINEL};

fn put_u32(b: &mut [u8], off: usize, v: u32) {
    b[off..off + 4].copy_from_slice(&v.to_le_bytes());
}

/// Three 64-byte entries at 0 with the sentinel in word 3 and an address
/// 0x00100200 in word 4; a VIF chain at 0x200.
fn sample_core() -> Vec<u8> {
    let mut d = vec![0u8; 4096];
    for e in 0..3 {
        put_u32(&mut d, e * 64 + 12, SENTINEL);
        put_u32(&mut d, e * 64 + 16, 0x0010_0200);
        put_u32(&mut d, e * 64 + 28, 0x300);
    }
    put_u32(&mut d, 0x200, 0x0100_0404); // STCYCL
    put_u32(&mut d, 0x204, 0x6E02_0010); // UNPACK V4_8, 2 elements
    for i in 0..16 {
        d[0x208 + i] = (i + 1) as u8;
    }
    put_u32(&mut d, 0x218, 0x1400_0008); // MSCAL
    put_u32(&mut d, 0x21C, 0x0000_0000); // NOP after the chain
    d
}

#[test]
fn stash_layout_follows_sentinel() {
    let d = sample_core();
    let l = detect_stash_entry_layout(&d, 0, 3);
    assert_eq!(
        l,
        StashLayout {
            sentinel_pos: 3,
            ee_pos: 4,
            mask: 0x01FF_FFFF,
            base: 0x0010_0000,
            valid: 3,
            sentinel_count: 3,
            total_sampled: 3,
        }
    );
}

#[test]
fn stash_layout_default_without_entries() {
    let d = sample_core();
    let l = detect_stash_entry_layout(&d, 0, 0);
    assert_eq!(
        l,
        StashLayout {
            sentinel_pos: -1,
            ee_pos: 1,
            mask: 0x01FF_FFFF,
            base: 0x0010_0000,
            valid: 0,
            sentinel_count: 0,
            total_sampled: 0,
        }
    );
}

#[test]
fn stash_layout_samples_at_most_fifty() {
    let d = vec![0u8; 64 * 60];
    let l = detect_stash_entry_layout(&d, 0, 200);
    assert_eq!(l.total_sampled, 50);
    assert_eq!(l.sentinel_pos, -1);
    assert_eq!(l.valid, 0);
}

#[test]
fn stash_entry_resolves_under_layout() {
    let d = sample_core();
    let l = detect_stash_entry_layout(&d, 0, 3);
    let r = resolve_stash_entry(&d, 64, &l);
    assert_eq!(r.ee_addr, 0x0010_0200);
    assert_eq!(r.file_off, 0x200);
    assert!(r.valid);
    assert_eq!(r.flags, 0x0010_0200);
    assert_eq!(r.sz_hint, 0x300);
    let out = resolve_stash_entry(&d, 4090, &l);
    assert_eq!(out.ee_addr, 0);
    assert!(!out.valid);
}

#[test]
fn stash_entry_wraps_below_base() {
    let mut d = vec![0u8; 256];
    put_u32(&mut d, 4, 0x10);
    let l = StashLayout {
        sentinel_pos: -1,
        ee_pos: 1,
        mask: 0x00FF_FFFF,
        base: 0x0010_0000,
        valid: 0,
        sentinel_count: 0,
        total_sampled: 0,
    };
    let r = resolve_stash_entry(&d, 0, &l);
    assert_eq!(r.file_off, 0xFFF0_0010);
    assert!(!r.valid);
    assert_eq!(r.flags, 0);
}

#[test]
fn stash_vif_chain_stops_at_mscal() {
    let d = sample_core();
    let (cmds, used) = parse_vif_chain(&d, 0x200, 0x400);
    assert_eq!(cmds.len(), 3);
    assert_eq!(used, 28);
    assert_eq!(cmds[0].cmd, 0x01);
    assert_eq!(cmds[0].num, 256);
    assert_eq!(cmds[0].execaddr, 0x0404);
    assert!(cmds[0].unpack.is_none());
    let up = cmds[1].unpack.as_ref().unwrap();
    assert_eq!(cmds[1].cmd, 0x6E);
    assert_eq!(cmds[1].num, 2);
    assert_eq!((up.vn, up.vl, up.elem_size, up.qwc), (4, 8, 4, 1));
    assert_eq!(up.data, (1u8..=16).collect::<Vec<u8>>());
    assert_eq!(cmds[2].cmd, 0x14);
    assert_eq!(cmds[2].execaddr, 8);
}

#[test]
fn stash_vif_chain_cut_by_size() {
    let d = sample_core();
    let (cmds, used) = parse_vif_chain(&d, 0x200, 12);
    assert_eq!(cmds.len(), 2);
    assert_eq!(used, 24);
    assert_eq!(cmds[1].unpack.as_ref().unwrap().data, vec![1, 2, 3, 4]);
}
