use flate2::write::ZlibEncoder;
use flate2::Compression;
use rac_tools::lz_spec::WadError;
use std::io::Write;
use rac_tools::wad::{compress_wad_lz, decompress_wad, decompress_wad_lz, is_wad_compressed};

#[test]
fn test_decompress_wad_small() {
    // Small synthetic test: empty WAD LZ data (just header)
    let data = b"WAD\x10\x00\x00\x00\x00\x00\x00\x00\x00\x00\x00\x00\x00\x00\x00";
    let result = decompress_wad_lz(data);
    assert!(result.is_ok());
    assert_eq!(result.unwrap().len(), 0);
}

#[test]
fn test_compress_roundtrip_small() {
    let input = b"Hello WAD LZ World! This is a test of the WAD LZ compression format. Hello WAD LZ World again!";
    let compressed = compress_wad_lz(input);
    assert!(compressed.len() >= 16);
    assert_eq!(&compressed[0..3], b"WAD");
    let decompressed = decompress_wad_lz(&compressed).expect("decompress should succeed");
    assert_eq!(decompressed, input, "round-trip mismatch");
}

#[test]
fn test_compress_roundtrip_repeating() {
    // Highly repetitive data should compress very well
    let mut input = Vec::new();
    for _ in 0..100 {
        input.extend_from_slice(b"ABCDEFGHIJKLMNOPQRSTUVWXYZ");
    }
    let compressed = compress_wad_lz(&input);
    assert!(compressed.len() < input.len(), "compression should reduce size");
    let decompressed = decompress_wad_lz(&compressed).expect("decompress should succeed");
    assert_eq!(decompressed, input, "round-trip mismatch for repeating data");
}

#[test]
fn test_compress_roundtrip_zeros() {
    let input = vec![0u8; 500];
    let compressed = compress_wad_lz(&input);
    let decompressed = decompress_wad_lz(&compressed).expect("decompress should succeed");
    assert_eq!(decompressed, input, "round-trip mismatch for zeros");
}

#[test]
fn test_compress_roundtrip_large() {
    // Large data to exercise matches at distances beyond 0x4000
    let mut input = Vec::new();
    for _ in 0..4000 {
        input.extend_from_slice(b"ABCDEFGHIJKLMNOPQRSTUVWXYZ");
    }
    let block1 = b"BEGINNING_OF_DISTANT_BLOCK_THAT_WILL_BE_MATCHED_LATER_1234567890abcdefghij";
    input.extend_from_slice(block1);
    for _ in 0..3000 {
        input.extend_from_slice(b"abcdefghijklmnopqrstuvwxyz0123456789");
    }
    input.extend_from_slice(block1);

    let compressed = compress_wad_lz(&input);
    assert!(&compressed[0..3] == b"WAD", "bad magic");
    let decompressed = decompress_wad_lz(&compressed).expect("decompress should succeed");
    assert_eq!(decompressed, input, "round-trip mismatch for large data");
}

#[test]
fn test_compress_roundtrip_short() {
    let input = b"short";
    let compressed = compress_wad_lz(input);
    let decompressed = decompress_wad_lz(&compressed).expect("decompress should succeed");
    assert_eq!(decompressed, input, "round-trip mismatch for short data");
}

#[test]
fn test_compress_roundtrip_empty() {
    let input = b"";
    let compressed = compress_wad_lz(input);
    assert_eq!(compressed.len(), 16);
    let decompressed = decompress_wad_lz(&compressed).expect("decompress should succeed");
    assert_eq!(decompressed, input, "round-trip mismatch for empty data");
}

#[test]
fn compressed_header_records_total_size() {
    let input = vec![7u8; 1000];
    let compressed = compress_wad_lz(&input);
    let size = u32::from_le_bytes([compressed[3], compressed[4], compressed[5], compressed[6]]);
    assert_eq!(size as usize, compressed.len());
    assert!(compressed[7..16].iter().all(|&b| b == 0));
}

#[test]
fn roundtrip_pseudo_random_and_far_matches() {
    // Incompressible-looking bytes followed by a copy 0x5000 bytes back (far match range)
    let mut input = Vec::new();
    let mut x: u32 = 12345;
    for _ in 0..0x6000 {
        x = x.wrapping_mul(1103515245).wrapping_add(12345);
        input.push((x >> 16) as u8);
    }
    let copy: Vec<u8> = input[0x1000..0x1200].to_vec();
    input.extend_from_slice(&copy);
    let compressed = compress_wad_lz(&input);
    assert_eq!(decompress_wad_lz(&compressed).unwrap(), input);
}

#[test]
fn roundtrip_every_short_length() {
    for n in 0..40usize {
        let input: Vec<u8> = (0..n).map(|i| (i * 7 % 5) as u8).collect();
        let compressed = compress_wad_lz(&input);
        assert_eq!(decompress_wad_lz(&compressed).unwrap(), input, "length {}", n);
    }
}

#[test]
fn decompress_errors() {
    assert_eq!(decompress_wad_lz(b"WAD"), Err(WadError::HeaderTooSmall));
    assert_eq!(decompress_wad_lz(b"XAD\x10\0\0\0\0\0\0\0\0\0\0\0\0"), Err(WadError::BadMagic));
    // long literal with no size byte
    assert_eq!(
        decompress_wad_lz(b"WAD\x11\0\0\0\0\0\0\0\0\0\0\0\0\x00"),
        Err(WadError::LiteralEof)
    );
    // literal of 4 bytes with only 2 present
    assert_eq!(
        decompress_wad_lz(b"WAD\x13\0\0\0\0\0\0\0\0\0\0\0\0\x01ab"),
        Err(WadError::LiteralOverrun)
    );
    // two literals in a row
    assert_eq!(
        decompress_wad_lz(b"WAD\x1a\0\0\0\0\0\0\0\0\0\0\0\0\x01abcd\x01abcd"),
        Err(WadError::DoubleLiteral)
    );
    // far match lacking its size byte
    assert_eq!(decompress_wad_lz(b"WAD\x11\0\0\0\0\0\0\0\0\0\0\0\0\x10"), Err(WadError::FarSizeEof));
    // far match lacking offset bytes
    assert_eq!(
        decompress_wad_lz(b"WAD\x12\0\0\0\0\0\0\0\0\0\0\0\0\x11\0"),
        Err(WadError::FarOffsetEof)
    );
    assert_eq!(decompress_wad_lz(b"WAD\x11\0\0\0\0\0\0\0\0\0\0\0\0\x20"), Err(WadError::MediumSizeEof));
    assert_eq!(
        decompress_wad_lz(b"WAD\x12\0\0\0\0\0\0\0\0\0\0\0\0\x21\0"),
        Err(WadError::MediumOffsetEof)
    );
    assert_eq!(decompress_wad_lz(b"WAD\x11\0\0\0\0\0\0\0\0\0\0\0\0\x40"), Err(WadError::LittleEof));
    // little match reaching back before the start of the output
    assert_eq!(
        decompress_wad_lz(b"WAD\x12\0\0\0\0\0\0\0\0\0\0\0\0\x40\0"),
        Err(WadError::MatchOutOfBounds)
    );
    // padding packet announcing 3 little-literal bytes, only 1 present
    assert_eq!(
        decompress_wad_lz(b"WAD\x14\0\0\0\0\0\0\0\0\0\0\0\0\x11\x03\x00a"),
        Err(WadError::LittleLiteralOverrun)
    );
}

#[test]
fn decompress_overlapping_match() {
    // literal "abcd", then little match distance 1 length 3 -> "abcdddd"
    // little flag: (len-1)<<5 | (dist-1 & 7)<<2 = 0x40, b1 = 0
    let data = b"WAD\x17\0\0\0\0\0\0\0\0\0\0\0\0\x01abcd\x40\x00";
    assert_eq!(decompress_wad_lz(data).unwrap(), b"abcdddd".to_vec());
}

#[test]
fn decompress_wad_zlib_and_containers() {
    let payload: Vec<u8> = (0..200u32).map(|i| (i % 13) as u8).collect();
    let mut enc = ZlibEncoder::new(Vec::new(), Compression::default());
    enc.write_all(&payload).unwrap();
    let z = enc.finish().unwrap();
    assert_eq!(z[0], 0x78);
    // raw zlib stream
    assert_eq!(decompress_wad(&z).unwrap(), payload);
    // WAD\x01 container (0x10-byte header) holding the zlib block at 0x18
    let mut c = b"WAD\x01".to_vec();
    c.resize(0x10, 0);
    c.extend_from_slice(&0x18u32.to_le_bytes());
    c.extend_from_slice(&(z.len() as u32).to_le_bytes());
    c.extend_from_slice(&z);
    assert_eq!(decompress_wad(&c).unwrap(), payload);
    // stored block
    let mut s = b"WAD\x01".to_vec();
    s.resize(0x10, 0);
    s.extend_from_slice(&0x18u32.to_le_bytes());
    s.extend_from_slice(&5u32.to_le_bytes());
    s.extend_from_slice(b"abcde");
    assert_eq!(decompress_wad(&s).unwrap(), b"abcde".to_vec());
    // block beyond the data
    let mut bad = s.clone();
    bad[0x14] = 200;
    assert_eq!(decompress_wad(&bad), Err(WadError::BlockOutOfRange));
    // WAD LZ block
    let lz = compress_wad_lz(b"some wad lz payload");
    assert_eq!(decompress_wad(&lz).unwrap(), b"some wad lz payload".to_vec());
    assert_eq!(decompress_wad(b"nothing"), Err(WadError::NotWad));
    // corrupt zlib stream
    let mut broken = z.clone();
    for b in broken.iter_mut().skip(2) {
        *b = 0xff;
    }
    assert_eq!(decompress_wad(&broken), Err(WadError::ZlibError));
}

#[test]
fn wad_compressed_detection() {
    assert!(is_wad_compressed(b"WAD\0rest"));
    assert!(is_wad_compressed(b"WADxrest"));
    assert!(is_wad_compressed(b"\x78\x9c\0\0"));
    assert!(!is_wad_compressed(b"\x78\x00\0\0"));
    assert!(!is_wad_compressed(b"WAD"));
}

#[test]
fn decompress_ignores_bytes_after_the_stream() {
    let input: Vec<u8> = b"ABCDEFGHIJKLMNOPQRSTUVWXYZ".iter().cycle().take(600).cloned().collect();
    let packed = rac_tools::wad::compress_wad_lz(&input);
    let mut longer = packed.clone();
    longer.extend_from_slice(&[0x00, 0x13, 0xFF, 0x44, 0x57, 0x41]);
    assert_eq!(
        rac_tools::wad::decompress_wad_lz(&longer),
        rac_tools::wad::decompress_wad_lz(&packed)
    );
    assert_eq!(rac_tools::wad::decompress_wad_lz(&longer).unwrap(), input);
}

#[test]
fn repetitive_input_uses_back_references() {
    let input: Vec<u8> = vec![7u8; 1000];
    let packed = rac_tools::wad::compress_wad_lz(&input);
    assert!(packed.len() < 100);
}
