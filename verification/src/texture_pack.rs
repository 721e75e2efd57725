//! Texture packing: RGBA pixels → PIF8 (8-bit palettized, GS-ready format),
//! with the colour quantization done by `color_quant`'s NeuQuant.

use vstd::prelude::*;
use crate::common::{le_u32, lemma_le_u32_at, push_u32_le, u32_le_bytes};
use crate::texture::{has_pif_magic, palette_swap, pif8_header_size, pif8_palette_component, scaled_alpha, lemma_palette_swap_involution};
use color_quant::NeuQuant;

verus! {

#[verifier::external_type_specification]
#[verifier::external_body]
pub struct ExNeuQuant(NeuQuant);

/// Sample factor of the quantizer's training (1 best, 30 fastest).
pub const QUANT_SAMPLE_FACTOR: i32 = 10;

/// Colours of a PIF8 palette.
pub const PALETTE_COLORS: usize = 256;

/// The RGBA colour map that `color_quant`'s NeuQuant, trained with sample
/// factor `samplefac` and `colors` colours on `pixels`, gives.
pub uninterp spec fn neuquant_palette(samplefac: int, colors: int, pixels: Seq<u8>) -> Seq<u8>;

/// The colour index that NeuQuant, trained as above on `pixels`, gives the
/// RGBA pixel `px`.
pub uninterp spec fn neuquant_index(samplefac: int, colors: int, pixels: Seq<u8>, px: Seq<u8>) -> int;

/// A trained NeuQuant network with the parameters and pixels it was trained
/// on; only [`neuquant_train`] makes one.
struct Quantizer {
    nq: NeuQuant,
    samplefac: i32,
    colors: usize,
    pixels: Ghost<Seq<u8>>,
}

impl View for Quantizer {
    type V = (int, int, Seq<u8>);

    closed spec fn view(&self) -> (int, int, Seq<u8>) {
        (self.samplefac as int, self.colors as int, self.pixels@)
    }
}

/// `NeuQuant::new(samplefac, colors, pixels)`: train the network on RGBA
/// pixels (a whole number of them, at least one), keeping the parameters
/// it was trained with.
#[verifier::external_body]
fn neuquant_train(samplefac: i32, colors: usize, pixels: &[u8]) -> (q: Quantizer)
    requires
        1 <= samplefac <= 30,
        64 <= colors <= 256,
        pixels@.len() % 4 == 0,
        pixels@.len() >= 4,
    ensures
        q@ == (samplefac as int, colors as int, pixels@),
{
    Quantizer { nq: NeuQuant::new(samplefac, colors, pixels), samplefac, colors, pixels: Ghost(pixels@) }
}

/// `NeuQuant::color_map_rgba`: the trained network's colour map, one RGBA
/// quadruple per colour of the network.
#[verifier::external_body]
fn neuquant_color_map(q: &Quantizer) -> (m: Vec<u8>)
    ensures
        m@ == neuquant_palette(q@.0, q@.1, q@.2),
        m@.len() == 4 * q@.1,
{
    q.nq.color_map_rgba()
}

/// `NeuQuant::index_of`: the index, below the network's colour count, of
/// the colour the trained network gives an RGBA pixel.
#[verifier::external_body]
fn neuquant_index_of(q: &Quantizer, pixel: &[u8]) -> (i: usize)
    requires
        pixel@.len() == 4,
    ensures
        i == neuquant_index(q@.0, q@.1, q@.2, pixel@),
        i < q@.1,
{
    q.nq.index_of(pixel)
}

/// The palette index of every pixel of `pixels` under the network trained
/// on them.
pub open spec fn quant_indices(pixels: Seq<u8>) -> Seq<u8> {
    Seq::new(
        pixels.len() / 4,
        |k: int|
            neuquant_index(
                QUANT_SAMPLE_FACTOR as int,
                PALETTE_COLORS as int,
                pixels,
                pixels.subrange(4 * k, 4 * k + 4),
            ) as u8,
    )
}

/// The palette of the network trained on `pixels`.
pub open spec fn quant_palette(pixels: Seq<u8>) -> Seq<u8> {
    neuquant_palette(QUANT_SAMPLE_FACTOR as int, PALETTE_COLORS as int, pixels)
}

/// Reasons a texture cannot be packed.
#[derive(Debug, Clone, Copy, PartialEq, Eq, Structural)]
pub enum PackError {
    /// Width or height is 0 or above 1024.
    InvalidDimensions,
    /// The pixel buffer does not hold `4 * width * height` bytes.
    PixelCountMismatch,
}

/// Sum and number of the alpha values of the first `n` pixels whose palette index is `i`.
pub open spec fn alpha_stats(pixels: Seq<u8>, indices: Seq<u8>, i: int, n: nat) -> (int, int)
    decreases n,
{
    if n == 0 {
        (0, 0)
    } else {
        let (s, c) = alpha_stats(pixels, indices, i, (n - 1) as nat);
        if indices[n - 1] as int == i {
            (s + pixels[4 * (n - 1) + 3] as int, c + 1)
        } else {
            (s, c)
        }
    }
}

/// Alpha of palette colour `i`: the mean alpha of the pixels mapped to it,
/// or the quantizer's alpha when no pixel is.
pub open spec fn refined_alpha(cmap: Seq<u8>, pixels: Seq<u8>, indices: Seq<u8>, i: int) -> int {
    let (s, c) = alpha_stats(pixels, indices, i, indices.len());
    if c > 0 {
        s / c
    } else {
        cmap[4 * i + 3] as int
    }
}

/// Byte `c` of colour `j` of the stored (swizzled) palette: colour
/// `palette_swap(j)` of the linear palette, alpha halved to the PS2 range.
pub open spec fn stored_palette_byte(
    cmap: Seq<u8>,
    pixels: Seq<u8>,
    indices: Seq<u8>,
    j: int,
    c: int,
) -> int {
    let src = palette_swap(j);
    if c == 3 {
        refined_alpha(cmap, pixels, indices, src) / 2
    } else {
        cmap[4 * src + c] as int
    }
}

/// `out` is the PIF8 file for a `w`×`h` texture with palette `cmap`, pixel
/// colour indices `indices`, and alpha refined from `pixels`.
pub open spec fn is_pif8_pack(
    out: Seq<u8>,
    w: int,
    h: int,
    cmap: Seq<u8>,
    pixels: Seq<u8>,
    indices: Seq<u8>,
) -> bool {
    &&& out.len() == 0x420 + indices.len()
    &&& indices.len() == w * h
    &&& out[0] == 0x32u8 && out[1] == 0x46u8 && out[2] == 0x49u8 && out[3] == 0x50u8
    &&& le_u32(out, 4) == out.len()
    &&& le_u32(out, 8) == w
    &&& le_u32(out, 12) == h
    &&& le_u32(out, 16) == 0x13
    &&& le_u32(out, 20) == 0
    &&& le_u32(out, 24) == 0
    &&& le_u32(out, 28) == 1
    &&& forall|j: int, c: int|
        0 <= j < 256 && 0 <= c < 4 ==> #[trigger] out[0x20 + 4 * j + c] as int
            == stored_palette_byte(cmap, pixels, indices, j, c)
    &&& forall|k: int| 0 <= k < indices.len() ==> #[trigger] out[0x420 + k] == indices[k]
}

/// Build a PIF8 file from the quantizer's colour map (256 RGBA colours) and
/// the colour index of each pixel: the alpha of each colour becomes the mean
/// alpha of its pixels, halved; the palette is stored GS-swizzled.
pub fn build_pif8(w: u32, h: u32, pixels: &[u8], cmap: &[u8], indices: &[u8]) -> (out: Vec<u8>)
    requires
        0 < w <= 1024,
        0 < h <= 1024,
        indices@.len() == w * h,
        pixels@.len() == 4 * indices@.len(),
        cmap@.len() >= 1024,
    ensures
        is_pif8_pack(out@, w as int, h as int, cmap@, pixels@, indices@),
{
    assert(w * h <= 1024 * 1024) by (nonlinear_arith)
        requires
            w <= 1024,
            h <= 1024,
    ;
    let pixel_count = indices.len();
    // Refine alpha: mean alpha of the pixels mapped to each colour
    let mut alpha_sum: Vec<u64> = Vec::new();
    let mut alpha_count: Vec<u64> = Vec::new();
    let mut i: usize = 0;
    while i < 256
        invariant
            i <= 256,
            alpha_sum@.len() == i,
            alpha_count@.len() == i,
            forall|j: int| 0 <= j < i ==> #[trigger] alpha_sum@[j] == 0 && alpha_count@[j] == 0,
        decreases 256 - i,
    {
        alpha_sum.push(0);
        alpha_count.push(0);
        i += 1;
    }
    let mut k: usize = 0;
    while k < pixel_count
        invariant
            k <= pixel_count,
            pixel_count == indices@.len(),
            pixel_count <= 1024 * 1024,
            pixels@.len() == 4 * pixel_count,
            alpha_sum@.len() == 256,
            alpha_count@.len() == 256,
            forall|j: int|
                0 <= j < 256 ==> {
                    &&& #[trigger] alpha_sum@[j] as int == alpha_stats(pixels@, indices@, j, k as nat).0
                    &&& alpha_count@[j] as int == alpha_stats(pixels@, indices@, j, k as nat).1
                    &&& alpha_sum@[j] <= 255 * alpha_count@[j]
                    &&& alpha_count@[j] <= k
                },
        decreases pixel_count - k,
    {
        let idx = indices[k] as usize;
        let a = pixels[k * 4 + 3] as u64;
        let ghost sum0 = alpha_sum@;
        let ghost count0 = alpha_count@;
        assert(alpha_sum@[idx as int] <= 255 * alpha_count@[idx as int]);
        alpha_sum[idx] = alpha_sum[idx] + a;
        alpha_count[idx] = alpha_count[idx] + 1;
        proof {
            assert(pixels@[4 * k + 3] == a);
            assert forall|j: int| 0 <= j < 256 implies {
                &&& #[trigger] alpha_sum@[j] as int == alpha_stats(pixels@, indices@, j, (k + 1) as nat).0
                &&& alpha_count@[j] as int == alpha_stats(pixels@, indices@, j, (k + 1) as nat).1
                &&& alpha_sum@[j] <= 255 * alpha_count@[j]
                &&& alpha_count@[j] <= k + 1
            } by {
                assert(sum0[j] as int == alpha_stats(pixels@, indices@, j, k as nat).0);
                assert(count0[j] as int == alpha_stats(pixels@, indices@, j, k as nat).1);
                assert(sum0[j] <= 255 * count0[j]);
                assert(count0[j] <= k);
            }
        }
        k += 1;
    }
    // Linear palette with refined alpha, halved (PS2 stores alpha 0-128)
    let mut alpha: Vec<u8> = Vec::new();
    let mut c: usize = 0;
    while c < 256
        invariant
            c <= 256,
            cmap@.len() >= 1024,
            alpha_sum@.len() == 256,
            alpha_count@.len() == 256,
            forall|j: int|
                #![trigger alpha_sum@[j]]
                #![trigger alpha_count@[j]]
                0 <= j < 256 ==> {
                    &&& alpha_sum@[j] as int == alpha_stats(pixels@, indices@, j, indices@.len()).0
                    &&& alpha_count@[j] as int == alpha_stats(pixels@, indices@, j, indices@.len()).1
                    &&& alpha_sum@[j] <= 255 * alpha_count@[j]
                },
            alpha@.len() == c,
            forall|j: int|
                0 <= j < c ==> #[trigger] alpha@[j] as int == refined_alpha(
                    cmap@,
                    pixels@,
                    indices@,
                    j,
                ) / 2,
        decreases 256 - c,
    {
        let ghost st = alpha_stats(pixels@, indices@, c as int, indices@.len());
        assert(alpha_sum@[c as int] as int == st.0 && alpha_count@[c as int] as int == st.1);
        let a = if alpha_count[c] > 0 {
            let q = alpha_sum[c] / alpha_count[c];
            assert(q <= 255) by (nonlinear_arith)
                requires
                    alpha_sum@[c as int] <= 255 * alpha_count@[c as int],
                    alpha_count@[c as int] > 0,
                    q == alpha_sum@[c as int] / alpha_count@[c as int],
            ;
            q as u8
        } else {
            cmap[c * 4 + 3]
        };
        assert(a as int == refined_alpha(cmap@, pixels@, indices@, c as int));
        alpha.push(a / 2);
        c += 1;
    }
    // Header (file size patched once known)
    let mut out: Vec<u8> = Vec::new();
    out.push(0x32);
    out.push(0x46);
    out.push(0x49);
    out.push(0x50);
    let total = (0x420 + pixel_count) as u32;
    push_u32_le(&mut out, total);
    push_u32_le(&mut out, w);
    push_u32_le(&mut out, h);
    push_u32_le(&mut out, 0x13);
    push_u32_le(&mut out, 0);
    push_u32_le(&mut out, 0);
    push_u32_le(&mut out, 1);
    let ghost header = out@;
    proof {
        assert(header.len() == 0x20);
        assert(header.subrange(4, 8) =~= u32_le_bytes(total));
        assert(header.subrange(8, 12) =~= u32_le_bytes(w));
        assert(header.subrange(12, 16) =~= u32_le_bytes(h));
        assert(header.subrange(16, 20) =~= u32_le_bytes(0x13));
        assert(header.subrange(20, 24) =~= u32_le_bytes(0));
        assert(header.subrange(24, 28) =~= u32_le_bytes(0));
        assert(header.subrange(28, 32) =~= u32_le_bytes(1));
        lemma_le_u32_at(header, 4, total);
        lemma_le_u32_at(header, 8, w);
        lemma_le_u32_at(header, 12, h);
        lemma_le_u32_at(header, 16, 0x13);
        lemma_le_u32_at(header, 20, 0);
        lemma_le_u32_at(header, 24, 0);
        lemma_le_u32_at(header, 28, 1);
    }
    // Palette in file order: colour j of the file is colour palette_swap(j)
    let mut j: usize = 0;
    while j < 256
        invariant
            j <= 256,
            cmap@.len() >= 1024,
            alpha@.len() == 256,
            forall|q: int|
                0 <= q < 256 ==> #[trigger] alpha@[q] as int == refined_alpha(
                    cmap@,
                    pixels@,
                    indices@,
                    q,
                ) / 2,
            out@.len() == 0x20 + 4 * j,
            out@.subrange(0, 0x20) == header,
            forall|q: int, d: int|
                0 <= q < j && 0 <= d < 4 ==> #[trigger] out@[0x20 + 4 * q + d] as int
                    == stored_palette_byte(cmap@, pixels@, indices@, q, d),
        decreases 256 - j,
    {
        proof {
            lemma_palette_swap_involution(j as int);
        }
        let src = crate::texture::map_palette_index(j as u32) as usize;
        let ghost before = out@;
        out.push(cmap[src * 4]);
        out.push(cmap[src * 4 + 1]);
        out.push(cmap[src * 4 + 2]);
        out.push(alpha[src]);
        assert(out@.subrange(0, 0x20) =~= before.subrange(0, 0x20));
        assert forall|q: int, d: int|
            0 <= q < j + 1 && 0 <= d < 4 implies #[trigger] out@[0x20 + 4 * q + d] as int
                == stored_palette_byte(cmap@, pixels@, indices@, q, d) by {
            if q < j {
                assert(out@[0x20 + 4 * q + d] == before[0x20 + 4 * q + d]);
            }
        }
        j += 1;
    }
    // Pixel indices (1 byte per pixel)
    let ghost with_palette = out@;
    let mut k: usize = 0;
    while k < pixel_count
        invariant
            k <= pixel_count,
            pixel_count == indices@.len(),
            out@.len() == 0x420 + k,
            out@.subrange(0, 0x420) == with_palette,
            with_palette.len() == 0x420,
            forall|q: int| 0 <= q < k ==> #[trigger] out@[0x420 + q] == indices@[q],
        decreases pixel_count - k,
    {
        let ghost before = out@;
        out.push(indices[k]);
        assert(out@.subrange(0, 0x420) =~= before.subrange(0, 0x420));
        k += 1;
    }
    proof {
        let o = out@;
        assert forall|q: int| 0 <= q < 0x420 implies #[trigger] o[q] == with_palette[q] by {
            assert(o.subrange(0, 0x420)[q] == o[q]);
        }
        assert forall|q: int| 0 <= q < 0x20 implies #[trigger] o[q] == header[q] by {
            assert(with_palette.subrange(0, 0x20)[q] == with_palette[q]);
        }
        assert(le_u32(o, 4) == le_u32(header, 4));
        assert(le_u32(o, 8) == le_u32(header, 8));
        assert(le_u32(o, 12) == le_u32(header, 12));
        assert(le_u32(o, 16) == le_u32(header, 16));
        assert(le_u32(o, 20) == le_u32(header, 20));
        assert(le_u32(o, 24) == le_u32(header, 24));
        assert(le_u32(o, 28) == le_u32(header, 28));
        assert forall|q: int, d: int|
            0 <= q < 256 && 0 <= d < 4 implies #[trigger] o[0x20 + 4 * q + d] as int
                == stored_palette_byte(cmap@, pixels@, indices@, q, d) by {
            assert(o[0x20 + 4 * q + d] == with_palette[0x20 + 4 * q + d]);
        }
    }
    out
}

/// Pack RGBA pixels into a PIF8 file: quantize to 256 colours with
/// NeuQuant, then [`build_pif8`].
pub fn pack_pif8(w: u32, h: u32, pixels: &[u8]) -> (r: Result<Vec<u8>, PackError>)
    ensures
        !(0 < w <= 1024 && 0 < h <= 1024) ==> r == Err::<Vec<u8>, PackError>(
            PackError::InvalidDimensions,
        ),
        (0 < w <= 1024 && 0 < h <= 1024 && pixels@.len() != 4 * (w * h)) ==> r == Err::<
            Vec<u8>,
            PackError,
        >(PackError::PixelCountMismatch),
        (0 < w <= 1024 && 0 < h <= 1024 && pixels@.len() == 4 * (w * h)) ==> match r {
            Ok(out) => is_pif8_pack(
                out@,
                w as int,
                h as int,
                quant_palette(pixels@),
                pixels@,
                quant_indices(pixels@),
            ),
            Err(_) => false,
        },
{
    if w == 0 || h == 0 || w > 1024 || h > 1024 {
        return Err(PackError::InvalidDimensions);
    }
    assert(w * h <= 1024 * 1024) by (nonlinear_arith)
        requires
            w <= 1024,
            h <= 1024,
    ;
    assert(w * h >= 1) by (nonlinear_arith)
        requires
            w >= 1,
            h >= 1,
    ;
    let pixel_count = (w * h) as usize;
    assert(pixel_count * 4 == 4 * (w * h));
    if pixels.len() != pixel_count * 4 {
        return Err(PackError::PixelCountMismatch);
    }
    // Quantize to 256 colours using NeuQuant
    let q = neuquant_train(QUANT_SAMPLE_FACTOR, PALETTE_COLORS, pixels);
    let cmap = neuquant_color_map(&q);
    // Map each pixel to its palette index
    let ghost want = quant_indices(pixels@);
    let mut indices: Vec<u8> = Vec::new();
    let mut i: usize = 0;
    while i < pixel_count
        invariant
            i <= pixel_count,
            pixel_count <= 1024 * 1024,
            pixels@.len() == 4 * pixel_count,
            q@ == (QUANT_SAMPLE_FACTOR as int, PALETTE_COLORS as int, pixels@),
            want == quant_indices(pixels@),
            indices@.len() == i,
            forall|k: int| 0 <= k < i ==> #[trigger] indices@[k] == want[k],
        decreases pixel_count - i,
    {
        let px = crate::wad::slice_range(pixels, i * 4, i * 4 + 4);
        let idx = neuquant_index_of(&q, px);
        indices.push(idx as u8);
        i += 1;
    }
    assert(indices@ =~= want);
    let out = build_pif8(w, h, pixels, cmap.as_slice(), indices.as_slice());
    let ghost packed = out@;
    assert(is_pif8_pack(packed, w as int, h as int, quant_palette(pixels@), pixels@, quant_indices(pixels@)));
    let r: Result<Vec<u8>, PackError> = Ok(out);
    assert(r->Ok_0@ == packed);
    r
}

/// Packing then decoding a PIF8 texture gives back, for every pixel, the
/// RGB of its palette colour and its refined alpha (halved, then doubled).
pub proof fn lemma_pif8_pack_decode(
    out: Seq<u8>,
    w: int,
    h: int,
    cmap: Seq<u8>,
    pixels: Seq<u8>,
    indices: Seq<u8>,
)
    requires
        is_pif8_pack(out, w, h, cmap, pixels, indices),
        0 < w <= 1024,
        0 < h <= 1024,
    ensures
        out.len() >= 16,
        has_pif_magic(out),
        le_u32(out, 8) == w,
        le_u32(out, 12) == h,
        pif8_header_size(out.len() as int, w * h) == Some(0x20int),
        forall|k: int, c: int|
            0 <= k < w * h && 0 <= c < 4 ==> #[trigger] pif8_palette_component(
                out,
                0x20,
                out[0x420 + k] as int,
                c,
            ) == (if c == 3 {
                scaled_alpha((refined_alpha(cmap, pixels, indices, indices[k] as int) / 2) as u8)
            } else {
                cmap[4 * indices[k] + c]
            }),
{
    assert forall|k: int, c: int| 0 <= k < w * h && 0 <= c < 4 implies #[trigger] pif8_palette_component(
        out,
        0x20,
        out[0x420 + k] as int,
        c,
    ) == (if c == 3 {
        scaled_alpha((refined_alpha(cmap, pixels, indices, indices[k] as int) / 2) as u8)
    } else {
        cmap[4 * indices[k] + c]
    }) by {
        let j = indices[k] as int;
        assert(out[0x420 + k] == indices[k]);
        lemma_palette_swap_involution(j);
        let sj = palette_swap(j);
        assert(out[0x20 + 4 * sj + c] as int == stored_palette_byte(cmap, pixels, indices, sj, c));
        assert(palette_swap(sj) == j);
    }
}

} // verus!
