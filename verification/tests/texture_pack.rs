use color_quant::NeuQuant;
use rac_tools::texture;
use rac_tools::texture_pack::{build_pif8, pack_pif8, PackError};

fn checkerboard(w: u32, h: u32) -> Vec<u8> {
    let mut rgba = Vec::with_capacity((w * h * 4) as usize);
    for y in 0..h {
        for x in 0..w {
            let bright = ((x ^ y) & 8) != 0;
            rgba.push(if bright { 255 } else { 32 }); // R
            rgba.push(if bright { 64 } else { 16 }); // G
            rgba.push(if bright { 128 } else { 48 }); // B
            rgba.push(if bright { 255 } else { 128 }); // A
        }
    }
    rgba
}

#[test]
fn roundtrip_png_pif8_png() {
    // Pack an in-memory test image
    let w = 32u32;
    let h = 32u32;
    let rgba = checkerboard(w, h);

    // Save as PNG in-memory
    let img = image::RgbaImage::from_raw(w, h, rgba.clone()).unwrap();
    let mut png_bytes = Vec::new();
    img.write_to(&mut std::io::Cursor::new(&mut png_bytes), image::ImageFormat::Png)
        .expect("write png to memory");

    // Pack to PIF8
    let pixels = img.into_raw();
    let pixel_count = (w * h) as usize;

    let nq = NeuQuant::new(10, 256, &pixels);
    let cmap = nq.color_map_rgba();

    let mut palette = vec![[0u8; 4]; 256];
    for i in 0..256 {
        palette[i] = [cmap[i * 4], cmap[i * 4 + 1], cmap[i * 4 + 2], cmap[i * 4 + 3]];
    }

    // Refine alpha
    let mut alpha_sum = vec![0u64; 256];
    let mut alpha_count = vec![0u64; 256];
    for i in 0..pixel_count {
        let idx = nq.index_of(&pixels[i * 4..i * 4 + 4]);
        if idx < 256 {
            alpha_sum[idx] += pixels[i * 4 + 3] as u64;
            alpha_count[idx] += 1;
        }
    }
    for i in 0..256 {
        if alpha_count[i] > 0 {
            palette[i][3] = (alpha_sum[i] / alpha_count[i]) as u8;
        }
    }
    for i in 0..256 {
        palette[i][3] /= 2;
    }

    // Swizzle palette for file
    let mut file_pal = vec![[0u8; 4]; 256];
    for j in 0..256 {
        let src = texture::map_palette_index(j as u32) as usize;
        file_pal[j] = palette[src];
    }

    // Map pixels
    let mut indices = Vec::with_capacity(pixel_count);
    for i in 0..pixel_count {
        let idx = nq.index_of(&pixels[i * 4..i * 4 + 4]) as u8;
        indices.push(idx);
    }

    // Write PIF8 in-memory
    let palette_bytes: Vec<u8> = file_pal.iter().flat_map(|c| c.iter().copied()).collect();
    let total_size = 0x20 + palette_bytes.len() + indices.len();
    let mut pif8 = Vec::with_capacity(total_size);
    pif8.extend_from_slice(b"2FIP");
    pif8.extend_from_slice(&[0; 4]);
    pif8.extend_from_slice(&(w as i32).to_le_bytes());
    pif8.extend_from_slice(&(h as i32).to_le_bytes());
    pif8.extend_from_slice(&0x13i32.to_le_bytes());
    pif8.extend_from_slice(&0i32.to_le_bytes());
    pif8.extend_from_slice(&0i32.to_le_bytes());
    pif8.extend_from_slice(&1i32.to_le_bytes());
    pif8.extend_from_slice(&palette_bytes);
    pif8.extend_from_slice(&indices);
    let size = pif8.len() as i32;
    pif8[4..8].copy_from_slice(&size.to_le_bytes());

    // Decode PIF8
    let decoded = texture::decode_pif8(&pif8).expect("decode_pif8 should succeed");

    let (dw, dh, decoded_rgba) = decoded;
    assert_eq!(dw, w, "width mismatch");
    assert_eq!(dh, h, "height mismatch");

    // Verify decoded RGBA is valid (non-zero, proper size)
    assert_eq!(decoded_rgba.len(), (w * h * 4) as usize, "decoded data size");

    // Write decoded back to PNG (in memory: the library does no file I/O)
    let decoded_img = image::RgbaImage::from_raw(w, h, decoded_rgba.clone()).expect("write decoded PNG");
    let mut decoded_png = Vec::new();
    decoded_img
        .write_to(&mut std::io::Cursor::new(&mut decoded_png), image::ImageFormat::Png)
        .expect("write decoded PNG");

    // Verify image has content (not all transparent/black)
    let has_content = decoded_rgba.chunks(4).any(|p| p[0] > 0 || p[1] > 0 || p[2] > 0);
    assert!(has_content, "decoded image should have visible content");

    // The library's packer produces exactly this file.
    assert_eq!(pack_pif8(w, h, &pixels), Ok(pif8.clone()));
    assert_eq!(build_pif8(w, h, &pixels, &cmap, &indices), pif8);
}

#[test]
fn pack_pif8_rejects_bad_input() {
    let px = checkerboard(8, 8);
    assert_eq!(pack_pif8(0, 8, &px), Err(PackError::InvalidDimensions));
    assert_eq!(pack_pif8(8, 0, &px), Err(PackError::InvalidDimensions));
    assert_eq!(pack_pif8(1025, 1, &px), Err(PackError::InvalidDimensions));
    assert_eq!(pack_pif8(1, 1025, &px), Err(PackError::InvalidDimensions));
    assert_eq!(pack_pif8(8, 4, &px), Err(PackError::PixelCountMismatch));
    assert_eq!(pack_pif8(16, 16, &px), Err(PackError::PixelCountMismatch));
    assert!(pack_pif8(8, 8, &px).is_ok());
}

#[test]
fn build_pif8_layout_and_alpha_refinement() {
    // Two pixels on colour 0 (alpha 100 and 201), one on colour 5 (alpha 7);
    // every other colour keeps the quantizer's alpha (here 90), halved.
    let mut cmap = vec![0u8; 1024];
    for i in 0..256 {
        cmap[i * 4] = i as u8;
        cmap[i * 4 + 1] = 1;
        cmap[i * 4 + 2] = 2;
        cmap[i * 4 + 3] = 90;
    }
    let pixels = vec![9, 9, 9, 100, 9, 9, 9, 201, 9, 9, 9, 7];
    let indices = vec![0u8, 0, 5];
    let out = build_pif8(3, 1, &pixels, &cmap, &indices);
    assert_eq!(out.len(), 0x420 + 3);
    assert_eq!(&out[0..4], b"2FIP");
    assert_eq!(u32::from_le_bytes([out[4], out[5], out[6], out[7]]), 0x423);
    assert_eq!(u32::from_le_bytes([out[8], out[9], out[10], out[11]]), 3);
    assert_eq!(u32::from_le_bytes([out[12], out[13], out[14], out[15]]), 1);
    assert_eq!(u32::from_le_bytes([out[16], out[17], out[18], out[19]]), 0x13);
    assert_eq!(u32::from_le_bytes([out[28], out[29], out[30], out[31]]), 1);
    // colour 0 sits at file slot 0: mean alpha (100 + 201) / 2 = 150, halved = 75
    assert_eq!(&out[0x20..0x24], &[0, 1, 2, 75]);
    // colour 5 sits at file slot 5: alpha 7 / 2 = 3
    assert_eq!(&out[0x20 + 20..0x20 + 24], &[5, 1, 2, 3]);
    // colour 8 is stored at file slot 16 (bits 3 and 4 swapped), alpha 90 / 2 = 45
    assert_eq!(&out[0x20 + 64..0x20 + 68], &[8, 1, 2, 45]);
    assert_eq!(&out[0x420..], &[0, 0, 5]);
    // Decoding gives the palette colours back, with the alpha doubled again.
    let (dw, dh, rgba) = texture::decode_pif8(&out).unwrap();
    assert_eq!((dw, dh), (3, 1));
    assert_eq!(rgba, vec![0, 1, 2, 150, 0, 1, 2, 150, 5, 1, 2, 6]);
}
